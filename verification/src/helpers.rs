//! Decimal text parsing and a tiny constant helper.

use vstd::prelude::*;

verus! {

use vstd::string::StrSliceExecFns;

/// Returns the fixed answer `42`.
pub fn private_helper() -> (r: u32)
    ensures
        r == 42,
{
    42
}

/// True when `c` is an ASCII decimal digit.
pub open spec fn is_digit(c: char) -> bool {
    48 <= c as int <= 57
}

/// The numeric value of a digit character.
pub open spec fn digit_value(c: char) -> int {
    c as int - 48
}

/// The number that a string of digits denotes in base ten.
pub open spec fn digits_value(s: Seq<char>) -> int
    decreases s.len(),
{
    if s.len() == 0 {
        0
    } else {
        digits_value(s.drop_last()) * 10 + digit_value(s.last())
    }
}

/// True when every character of `s` is a decimal digit.
pub open spec fn all_digits(s: Seq<char>) -> bool {
    forall|i: int| 0 <= i < s.len() ==> is_digit(#[trigger] s[i])
}

/// Everything after the optional leading sign.
pub open spec fn digit_part(s: Seq<char>) -> Seq<char> {
    if s.len() > 0 && (s[0] == '+' || s[0] == '-') {
        s.subrange(1, s.len() as int)
    } else {
        s
    }
}

/// `-1` for a leading minus sign, `1` otherwise.
pub open spec fn sign_of(s: Seq<char>) -> int {
    if s.len() > 0 && s[0] == '-' {
        -1
    } else {
        1
    }
}

/// The integer that a signed decimal text denotes.
pub open spec fn decimal_value(s: Seq<char>) -> int {
    sign_of(s) * digits_value(digit_part(s))
}

/// The texts accepted as an `i32`: an optional leading `+` or `-`, then at
/// least one decimal digit and nothing else, denoting a value in range.
pub open spec fn is_i32_text(s: Seq<char>) -> bool {
    &&& digit_part(s).len() > 0
    &&& all_digits(digit_part(s))
    &&& i32::MIN <= decimal_value(s) <= i32::MAX
}

/// A digit string denotes a nonnegative number.
proof fn lemma_digits_value_nonneg(s: Seq<char>)
    requires
        all_digits(s),
    ensures
        digits_value(s) >= 0,
    decreases s.len(),
{
    if s.len() > 0 {
        assert(all_digits(s.drop_last())) by {
            assert(forall|i: int|
                0 <= i < s.len() - 1 ==> s.drop_last()[i] == #[trigger] s[i]);
        }
        lemma_digits_value_nonneg(s.drop_last());
    }
}

/// Appending digits never shrinks the number a digit string denotes.
proof fn lemma_digits_value_prefix_le(s: Seq<char>, k: int)
    requires
        all_digits(s),
        0 <= k <= s.len(),
    ensures
        digits_value(s.subrange(0, k)) <= digits_value(s),
    decreases s.len() - k,
{
    if k < s.len() {
        let t = s.subrange(0, k + 1);
        assert(t.drop_last() =~= s.subrange(0, k));
        assert(all_digits(t.drop_last()));
        lemma_digits_value_nonneg(t.drop_last());
        assert(digits_value(t) == digits_value(s.subrange(0, k)) * 10 + digit_value(t.last()));
        assert(digits_value(s.subrange(0, k)) <= digits_value(t)) by {
            lemma_digits_value_nonneg(s.subrange(0, k));
        }
        lemma_digits_value_prefix_le(s, k + 1);
        assert(s.subrange(0, s.len() as int) =~= s);
    } else {
        assert(s.subrange(0, k) =~= s);
    }
}

/// Parses signed decimal text exactly as `str::parse::<i32>` does: an
/// optional leading `+` or `-`, then one or more ASCII digits; anything
/// else, and any value out of the `i32` range, is rejected.
pub fn parse_number(s: &str) -> (r: Result<i32, String>)
    ensures
        is_i32_text(s@) ==> r is Ok && r->Ok_0 == decimal_value(s@),
        !is_i32_text(s@) ==> r is Err && r->Err_0@ == "Invalid number"@,
{
    let n = s.unicode_len();
    let mut start: usize = 0;
    let mut negative = false;
    if n > 0 {
        let c0 = s.get_char(0);
        if c0 == '-' {
            negative = true;
            start = 1;
        } else if c0 == '+' {
            start = 1;
        }
    }
    if start == n {
        // empty text, or a sign with no digits after it
        assert(digit_part(s@).len() == 0);
        return Err("Invalid number".to_string());
    }
    let ghost dp = digit_part(s@);
    proof {
        assert(dp =~= s@.subrange(start as int, n as int));
    }
    let bound: u64 = if negative {
        0x8000_0000
    } else {
        0x7FFF_FFFF
    };
    let mut magnitude: u64 = 0;
    let mut j: usize = start;
    while j < n
        invariant
            start <= j <= n,
            n == s@.len(),
            dp == digit_part(s@),
            dp =~= s@.subrange(start as int, n as int),
            negative == (sign_of(s@) == -1),
            bound == if negative { 0x8000_0000u64 } else { 0x7FFF_FFFFu64 },
            all_digits(s@.subrange(start as int, j as int)),
            magnitude == digits_value(s@.subrange(start as int, j as int)),
            magnitude <= bound,
        decreases n - j,
    {
        let c = s.get_char(j);
        let u = c as u32;
        proof {
            assert(dp[j - start] == s@[j as int]);
        }
        if u < 48 || u > 57 {
            // a non-digit after the sign: the text is not a number
            return Err("Invalid number".to_string());
        }
        let d = (u - 48) as u64;
        proof {
            let prefix = s@.subrange(start as int, j as int);
            let grown = s@.subrange(start as int, j + 1);
            assert(grown.drop_last() =~= prefix);
            assert(grown.last() == s@[j as int]);
            assert(forall|i: int| 0 <= i < grown.len() ==> grown[i] == #[trigger] s@[
                start + i]);
        }
        magnitude = magnitude * 10 + d;
        if magnitude > bound {
            // the digits seen so far already push the value out of range
            proof {
                lemma_out_of_range(s@, j + 1);
            }
            return Err("Invalid number".to_string());
        }
        j += 1;
    }
    proof {
        assert(s@.subrange(start as int, n as int) =~= dp);
        lemma_digits_value_nonneg(dp);
    }
    if negative {
        let v = (-(magnitude as i64)) as i32;
        proof {
            assert(decimal_value(s@) == -(magnitude as int));
        }
        Ok(v)
    } else {
        let v = magnitude as i32;
        Ok(v)
    }
}

/// When some prefix of the digit part already denotes a number beyond the
/// range that the sign allows, the whole text is rejected.
proof fn lemma_out_of_range(s: Seq<char>, upto: int)
    requires
        digit_part(s).len() > 0,
        0 <= upto - (s.len() - digit_part(s).len()) <= digit_part(s).len(),
        digits_value(s.subrange(s.len() - digit_part(s).len(), upto)) > if sign_of(s) == -1 {
            0x8000_0000int
        } else {
            0x7FFF_FFFFint
        },
    ensures
        !is_i32_text(s),
{
    let dp = digit_part(s);
    let off = s.len() - dp.len();
    if all_digits(dp) {
        let k = upto - off;
        assert(dp.subrange(0, k) =~= s.subrange(off as int, upto));
        lemma_digits_value_prefix_le(dp, k);
        if sign_of(s) == -1 {
            assert(decimal_value(s) == -1 * digits_value(dp));
            assert(decimal_value(s) < i32::MIN);
        } else {
            assert(decimal_value(s) == 1 * digits_value(dp));
            assert(decimal_value(s) > i32::MAX);
        }
    }
}

} // verus!
