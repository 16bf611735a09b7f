use layout_planner::modulo::{Modulo, OverflowingModulo};

#[test]
fn test_modulo_i64() {
    assert_eq!((-5).modulo(86_400), 86395);
}

#[test]
fn test_modulo_positive_divisor() {
    assert_eq!(7i64.modulo(3), 1);
    assert_eq!((-7i64).modulo(3), 2);
    assert_eq!(0i64.modulo(5), 0);
    assert_eq!((-6i64).modulo(3), 0);
}

#[test]
fn test_modulo_negative_divisor() {
    assert_eq!(7i64.modulo(-3), -2);
    assert_eq!((-7i64).modulo(-3), -1);
    assert_eq!(6i64.modulo(-3), 0);
}

#[test]
fn test_overflowing_modulo_min_by_minus_one() {
    assert_eq!(i64::MIN.overflowing_modulo(-1), (0, true));
}

#[test]
fn test_overflowing_modulo_plain() {
    assert_eq!((-5i64).overflowing_modulo(86_400), (86395, false));
    assert_eq!(10i64.overflowing_modulo(4), (2, false));
}
