use ordered_tree::helpers::parse_number;
use ordered_tree::helpers::private_helper;

#[test]
fn test_private_helper() {
    assert_eq!(private_helper(), 42);
}

#[test]
fn test_parse() -> Result<(), String> {
    // return Result
    let n = parse_number("42")?;
    assert_eq!(n, 42);
    Ok(())
}

#[test]
fn parse_accepts_signs_and_leading_zeros() {
    assert_eq!(parse_number("-42"), Ok(-42));
    assert_eq!(parse_number("+7"), Ok(7));
    assert_eq!(parse_number("0042"), Ok(42));
    assert_eq!(parse_number("0"), Ok(0));
    assert_eq!(parse_number("-0"), Ok(0));
}

#[test]
fn parse_accepts_the_whole_range() {
    assert_eq!(parse_number("2147483647"), Ok(i32::MAX));
    assert_eq!(parse_number("-2147483648"), Ok(i32::MIN));
}

#[test]
fn parse_rejects_malformed_text() {
    let invalid = Err("Invalid number".to_string());
    assert_eq!(parse_number(""), invalid);
    assert_eq!(parse_number("+"), invalid);
    assert_eq!(parse_number("-"), invalid);
    assert_eq!(parse_number("abc"), invalid);
    assert_eq!(parse_number("12a"), invalid);
    assert_eq!(parse_number(" 42"), invalid);
    assert_eq!(parse_number("4 2"), invalid);
    assert_eq!(parse_number("--1"), invalid);
}

#[test]
fn parse_rejects_out_of_range_values() {
    let invalid = Err("Invalid number".to_string());
    assert_eq!(parse_number("2147483648"), invalid);
    assert_eq!(parse_number("-2147483649"), invalid);
    assert_eq!(parse_number("99999999999999999999"), invalid);
}

#[test]
fn parse_agrees_with_std() {
    for text in ["", "+", "-", "0", "-42", "+7", "2147483648", "-2147483648", "1x", "007"] {
        let ours = parse_number(text).ok();
        let std_result: Option<i32> = text.parse().ok();
        assert_eq!(ours, std_result, "disagreement on {:?}", text);
    }
}
