//! Small checked integer helpers.

use vstd::prelude::*;

verus! {

use vstd::math::abs;
use vstd::arithmetic::div_mod::lemma_div_pos_is_pos;
use vstd::arithmetic::div_mod::lemma_div_nonincreasing;
use vstd::arithmetic::div_mod::lemma_div_is_ordered_by_denominator;

/// Sum of two machine integers; the caller must keep the sum in range.
pub fn add(a: i32, b: i32) -> (r: i32)
    requires
        i32::MIN <= a + b <= i32::MAX,
    ensures
        r == a + b,
{
    a + b
}

/// The quotient that machine division produces: the magnitudes are divided
/// and the quotient carries the sign of the operands' product, so rounding
/// goes toward zero.
pub open spec fn quotient_toward_zero(a: int, b: int) -> int {
    if (a < 0) == (b < 0) {
        abs(a) as int / abs(b) as int
    } else {
        -(abs(a) as int / abs(b) as int)
    }
}

/// Quotient of two machine integers, rounded toward zero as Rust's `/` is.
/// The caller must rule out the zero divisor and the one overflowing pair,
/// on which machine division does not return normally.
pub fn divide(a: i32, b: i32) -> (r: i32)
    requires
        b != 0,
        !(a == i32::MIN && b == -1),
    ensures
        r == quotient_toward_zero(a as int, b as int),
{
    proof {
        lemma_quotient_in_range(a as int, b as int);
    }
    let q = a.checked_div(b);
    q.unwrap()
}

/// For divisors other than zero and `(i32::MIN, -1)`, the truncated quotient
/// of two `i32` values stays in range.
proof fn lemma_quotient_in_range(a: int, b: int)
    requires
        i32::MIN <= a <= i32::MAX,
        i32::MIN <= b <= i32::MAX,
        b != 0,
        !(a == i32::MIN && b == -1),
    ensures
        i32::MIN <= quotient_toward_zero(a, b) <= i32::MAX,
        quotient_toward_zero(a, b) == if a == 0 {
            0
        } else if a > 0 && b > 0 {
            a / b
        } else if a < 0 && b < 0 {
            (a * -1) / (b * -1)
        } else if a < 0 {
            ((a * -1) / b) * -1
        } else {
            (a / (b * -1)) * -1
        },
{
    let m = abs(a) as int;
    let d = abs(b) as int;
    lemma_div_pos_is_pos(m, d);
    lemma_div_nonincreasing(m, d);
    if (a < 0) == (b < 0) && m > i32::MAX {
        // the one magnitude beyond i32::MAX is `abs(i32::MIN)`, and a
        // positive quotient then needs a divisor of magnitude at least 2,
        // which at least halves it
        assert(a == i32::MIN && b < 0 && b != -1);
        assert(d >= 2);
        lemma_div_is_ordered_by_denominator(m, 2, d);
        assert(m / 2 == 0x4000_0000);
    }
}

} // verus!
