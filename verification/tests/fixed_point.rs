//! Exact-value tests of the Q31.32 scalar operations.

use fluid2d::fixed::Fixed;

#[test]
fn from_int_is_exact() {
    assert_eq!(Fixed::from_int(0).bits, 0);
    assert_eq!(Fixed::from_int(1).bits, 4294967296);
    assert_eq!(Fixed::from_int(1000).bits, 1000 * 4294967296);
    assert_eq!(Fixed::from_int(-3).bits, -3 * 4294967296);
}

#[test]
fn from_int_saturates_outside_the_representable_range() {
    assert_eq!(Fixed::from_int(i64::MAX).bits, i64::MAX);
    assert_eq!(Fixed::from_int(i64::MIN).bits, i64::MIN);
}

#[test]
fn from_ratio_truncates_towards_zero() {
    // 1.9 in Q31.32: 19 * 2^32 / 10, truncated.
    assert_eq!(Fixed::from_ratio(19, 10).bits, 8160437862);
    assert_eq!(Fixed::from_ratio(7, 3).bits, 10021590357);
    assert_eq!(Fixed::from_ratio(-7, 3).bits, -10021590357);
    assert_eq!(Fixed::from_ratio(1, 2).bits, 2147483648);
}

#[test]
fn add_and_sub_are_exact_in_range() {
    let a = Fixed::from_int(5);
    let b = Fixed::from_ratio(1, 2);
    assert_eq!(a.add(b).bits, 5 * 4294967296 + 2147483648);
    assert_eq!(a.sub(b).bits, 5 * 4294967296 - 2147483648);
}

#[test]
fn add_and_sub_saturate_at_the_i64_range() {
    assert_eq!(Fixed { bits: i64::MAX }.add(Fixed::one()).bits, i64::MAX);
    assert_eq!(Fixed { bits: i64::MIN }.sub(Fixed::one()).bits, i64::MIN);
}

#[test]
fn mul_of_integers_is_exact() {
    assert_eq!(
        Fixed::from_int(3).mul(Fixed::from_int(4)).bits,
        Fixed::from_int(12).bits
    );
    assert_eq!(
        Fixed::from_int(-3).mul(Fixed::from_int(4)).bits,
        Fixed::from_int(-12).bits
    );
    assert_eq!(Fixed::from_int(7).mul(Fixed::zero()).bits, 0);
}

#[test]
fn div_matches_the_scaled_truncating_quotient() {
    assert_eq!(
        Fixed::from_int(10).div(Fixed::from_int(4)).bits,
        10737418240
    );
    assert_eq!(
        Fixed::from_int(-10).div(Fixed::from_int(4)).bits,
        -10737418240
    );
}

#[test]
fn div_n_truncates_towards_zero() {
    assert_eq!(Fixed::from_int(-3).div_n(2).bits, -6442450944);
    assert_eq!(Fixed::from_int(3).div_n(2).bits, 6442450944);
    assert_eq!(Fixed::from_int(7).div_n(4).bits, 7 * 4294967296 / 4);
}

#[test]
fn floor_rounds_towards_negative_infinity() {
    assert_eq!(Fixed::from_ratio(5, 2).floor(), 2);
    assert_eq!(Fixed::from_ratio(-5, 2).floor(), -3);
    assert_eq!(Fixed::from_int(4).floor(), 4);
    assert_eq!(Fixed::from_int(-4).floor(), -4);
    assert_eq!(Fixed::zero().floor(), 0);
}
