use ordered_tree::calculate::add;
use ordered_tree::calculate::divide;

#[test]
fn test_add() {
    assert_eq!(add(1, 2), 3);
}

#[test]
fn add_handles_negatives() {
    assert_eq!(add(-5, 2), -3);
    assert_eq!(add(i32::MAX, -1), i32::MAX - 1);
    assert_eq!(add(i32::MIN, 1), i32::MIN + 1);
}

#[test]
fn divide_rounds_toward_zero() {
    assert_eq!(divide(10, 2), 5);
    assert_eq!(divide(7, 2), 3);
    assert_eq!(divide(-7, 2), -3);
    assert_eq!(divide(7, -2), -3);
    assert_eq!(divide(-7, -2), 3);
    assert_eq!(divide(0, 9), 0);
    assert_eq!(divide(i32::MIN, 1), i32::MIN);
    assert_eq!(divide(i32::MIN, -2), 1 << 30);
}
