use vatnar_linalg::Scalar;

#[test]
fn test_i32_saturating_ops() {
    assert_eq!(2i32.add(3), 5);
    assert_eq!(i32::MAX.add(1), i32::MAX);
    assert_eq!(i32::MIN.sub(1), i32::MIN);
    assert_eq!((-7i32).mul(6), -42);
    assert_eq!(i32::MAX.mul(2), i32::MAX);
    assert_eq!(i32::MIN.mul(2), i32::MIN);
}

#[test]
fn test_i32_division_truncates() {
    assert_eq!(7i32.div_by(2), 3);
    assert_eq!((-7i32).div_by(2), -3);
    assert_eq!(7i32.div_by(-2), -3);
    assert_eq!((-7i32).div_by(-2), 3);
    assert_eq!(i32::MIN.div_by(-1), i32::MAX);
}

#[test]
fn test_i32_checked_sub() {
    assert_eq!(5i32.checked_sub(7), Some(-2));
    assert_eq!(i32::MIN.checked_sub(1), None);
}

#[test]
fn test_i32_magnitude() {
    assert!((-5i32).abs_gt(4));
    assert!(!3i32.abs_gt(-3));
    assert!(i32::MIN.abs_gt(i32::MAX));
    assert!(0i32.near_zero());
    assert!(!(-1i32).near_zero());
}

#[test]
fn test_u32_ops() {
    assert_eq!(3u32.sub(5), 0);
    assert_eq!(u32::MAX.add(2), u32::MAX);
    assert_eq!(10u32.div_by(3), 3);
    assert_eq!(5u32.checked_sub(7), None);
    assert_eq!(7u32.checked_sub(5), Some(2));
    assert_eq!(<u32 as Scalar>::zero(), 0);
    assert_eq!(<u32 as Scalar>::one(), 1);
}

#[test]
fn test_integer_round_is_identity() {
    assert_eq!((-123i32).round_dp(5), -123);
    assert_eq!(123u32.round_dp(0), 123);
}
