use raycaster::fixed::{Fixed, SCALE};
use raycaster::isqrt::isqrt_u128;

fn fx(v: f64) -> Fixed {
    Fixed::from_raw((v * 1099511627776.0).round() as i64)
}

#[test]
fn scale_is_two_to_the_fortieth() {
    assert_eq!(SCALE, 1 << 40);
    assert_eq!(SCALE, 1099511627776);
    assert_eq!(Fixed::one().raw, 1099511627776);
    assert_eq!(Fixed::zero().raw, 0);
}

#[test]
fn isqrt_rounds_down() {
    assert_eq!(isqrt_u128(0), 0);
    assert_eq!(isqrt_u128(1), 1);
    assert_eq!(isqrt_u128(2), 1);
    assert_eq!(isqrt_u128(3), 1);
    assert_eq!(isqrt_u128(4), 2);
    assert_eq!(isqrt_u128(15), 3);
    assert_eq!(isqrt_u128(16), 4);
    assert_eq!(isqrt_u128(17), 4);
    assert_eq!(isqrt_u128(1_000_000_000_000), 1_000_000);
    assert_eq!(isqrt_u128(999_999_999_999), 999_999);
}

#[test]
fn isqrt_of_the_largest_input() {
    assert_eq!(isqrt_u128(u128::MAX), 18446744073709551615);
    assert_eq!(isqrt_u128(1 << 126), 1 << 63);
}

#[test]
fn from_int_is_exact_within_the_range() {
    assert_eq!(Fixed::from_int(0).raw, 0);
    assert_eq!(Fixed::from_int(1).raw, 1099511627776);
    assert_eq!(Fixed::from_int(-2).raw, -2199023255552);
    assert_eq!(Fixed::from_int(8388607).raw, 9223370937343148032);
    assert_eq!(Fixed::from_int(-8388608).raw, i64::MIN);
}

#[test]
fn from_int_saturates_beyond_the_range() {
    assert_eq!(Fixed::from_int(8388608).raw, i64::MAX);
    assert_eq!(Fixed::from_int(-8388609).raw, i64::MIN);
    assert_eq!(Fixed::from_int(i32::MAX).raw, i64::MAX);
    assert_eq!(Fixed::from_int(i32::MIN).raw, i64::MIN);
}

#[test]
fn add_and_sub_are_exact_in_range() {
    assert_eq!(fx(1.5).add(fx(2.25)), fx(3.75));
    assert_eq!(fx(1.5).sub(fx(2.25)), fx(-0.75));
    assert_eq!(Fixed::from_raw(7).add(Fixed::from_raw(-9)).raw, -2);
}

#[test]
fn add_and_sub_saturate() {
    let max = Fixed::from_raw(i64::MAX);
    let min = Fixed::from_raw(i64::MIN);
    assert_eq!(max.add(Fixed::from_raw(1)), max);
    assert_eq!(min.add(Fixed::from_raw(-1)), min);
    assert_eq!(min.sub(Fixed::from_raw(1)), min);
    assert_eq!(max.sub(min), max);
    assert_eq!(min.sub(max), min);
}

#[test]
fn neg_saturates_at_the_smallest_value() {
    assert_eq!(fx(2.5).neg(), fx(-2.5));
    assert_eq!(Fixed::from_raw(i64::MIN).neg().raw, i64::MAX);
    assert_eq!(Fixed::from_raw(i64::MAX).neg().raw, -i64::MAX);
}

#[test]
fn mul_exact_values() {
    assert_eq!(fx(1.5).mul(fx(2.5)), fx(3.75));
    assert_eq!(fx(-1.5).mul(fx(2.5)), fx(-3.75));
    assert_eq!(fx(-1.5).mul(fx(-2.5)), fx(3.75));
    assert_eq!(Fixed::from_int(3).mul(Fixed::from_int(-2)), Fixed::from_int(-6));
    assert_eq!(fx(123.0).mul(Fixed::one()), fx(123.0));
    assert_eq!(fx(123.0).mul(Fixed::zero()), Fixed::zero());
}

#[test]
fn mul_rounds_toward_zero() {
    let tiny = Fixed::from_raw(1);
    assert_eq!(tiny.mul(tiny).raw, 0);
    assert_eq!(tiny.neg().mul(tiny).raw, 0);
    assert_eq!(Fixed::from_raw(3).mul(fx(0.5)).raw, 1);
    assert_eq!(Fixed::from_raw(-3).mul(fx(0.5)).raw, -1);
}

#[test]
fn mul_saturates() {
    let max = Fixed::from_raw(i64::MAX);
    let min = Fixed::from_raw(i64::MIN);
    assert_eq!(max.mul(Fixed::from_int(2)), max);
    assert_eq!(max.mul(Fixed::from_int(-2)), min);
    assert_eq!(min.mul(min), max);
    assert_eq!(min.mul(Fixed::one()), min);
}

#[test]
fn div_exact_values() {
    assert_eq!(fx(3.75).div(fx(2.5)), fx(1.5));
    assert_eq!(Fixed::from_int(3).div(Fixed::from_int(-2)), fx(-1.5));
    assert_eq!(Fixed::from_int(600).div(Fixed::from_int(800)), fx(0.75));
}

#[test]
fn div_rounds_toward_zero() {
    assert_eq!(Fixed::from_int(1).div(Fixed::from_int(3)).raw, 366503875925);
    assert_eq!(Fixed::from_int(-1).div(Fixed::from_int(3)).raw, -366503875925);
    assert_eq!(Fixed::from_int(1).div(Fixed::from_int(-3)).raw, -366503875925);
    assert_eq!(Fixed::from_int(2).div(Fixed::from_int(800)).raw, 2748779069);
}

#[test]
fn div_by_zero_saturates_by_sign() {
    let zero = Fixed::zero();
    assert_eq!(Fixed::from_int(5).div(zero).raw, i64::MAX);
    assert_eq!(Fixed::from_int(-5).div(zero).raw, i64::MIN);
    assert_eq!(zero.div(zero).raw, 0);
}

#[test]
fn div_saturates() {
    let max = Fixed::from_raw(i64::MAX);
    let min = Fixed::from_raw(i64::MIN);
    assert_eq!(max.div(fx(0.5)), max);
    assert_eq!(min.div(fx(0.5)), min);
    assert_eq!(min.div(Fixed::from_int(-1)), max);
    assert_eq!(max.div(Fixed::from_raw(-1)), min);
}

#[test]
fn sqrt_exact_and_rounded() {
    assert_eq!(Fixed::from_int(4).sqrt(), Fixed::from_int(2));
    assert_eq!(fx(2.25).sqrt(), fx(1.5));
    assert_eq!(Fixed::from_int(2).sqrt().raw, 1554944255987);
    assert_eq!(Fixed::from_raw(1).sqrt().raw, 1048576);
    assert_eq!(Fixed::from_raw(i64::MAX).sqrt().raw, 3184525836262886);
}

#[test]
fn sqrt_of_zero_and_of_negative_numbers_is_zero() {
    assert_eq!(Fixed::zero().sqrt().raw, 0);
    assert_eq!(Fixed::from_int(-4).sqrt().raw, 0);
    assert_eq!(Fixed::from_raw(i64::MIN).sqrt().raw, 0);
}

#[test]
fn trunc_drops_the_fraction_toward_zero() {
    assert_eq!(fx(2.5).trunc(), 2);
    assert_eq!(fx(-2.5).trunc(), -2);
    assert_eq!(fx(0.999).trunc(), 0);
    assert_eq!(fx(-0.999).trunc(), 0);
    assert_eq!(Fixed::from_raw(i64::MIN).trunc(), -8388608);
    assert_eq!(Fixed::from_raw(i64::MAX).trunc(), 8388607);
}

#[test]
fn scalar_operators_are_the_named_operations() {
    let a = fx(3.75);
    let b = fx(-2.5);
    assert_eq!(a + b, fx(1.25));
    assert_eq!(a - b, fx(6.25));
    assert_eq!(a * b, fx(-9.375));
    assert_eq!(a / b, fx(-1.5));
    assert_eq!(a / Fixed::zero(), Fixed::from_raw(i64::MAX));
    assert_eq!(Fixed::from_raw(i64::MAX) + a, Fixed::from_raw(i64::MAX));
}

#[test]
fn is_negative_tells_the_sign() {
    assert!(fx(-0.001).is_negative());
    assert!(Fixed::from_raw(-1).is_negative());
    assert!(!Fixed::zero().is_negative());
    assert!(!fx(2.0).is_negative());
}

#[test]
fn mul_ratio_rounds_once() {
    // 2 / 800 * 400 is exactly one, though 2 / 800 is not representable.
    assert_eq!(Fixed::from_int(2).mul_ratio(400, 800), Fixed::one());
    assert_ne!(Fixed::from_int(2).mul_ratio(1, 800).mul(Fixed::from_int(400)), Fixed::one());
    assert_eq!(Fixed::from_int(2).mul_ratio(1, 800).raw, 2748779069);
    assert_eq!(Fixed::from_int(1).mul_ratio(1, 3).raw, 366503875925);
    assert_eq!(Fixed::from_int(-1).mul_ratio(1, 3).raw, -366503875925);
    assert_eq!(Fixed::from_int(1).mul_ratio(-2, 3).raw, -733007751850);
    assert_eq!(Fixed::from_int(1).mul_ratio(-2, -3).raw, 733007751850);
    assert_eq!(Fixed::from_raw(7).mul_ratio(i64::MAX, i64::MAX).raw, 7);
    assert_eq!(Fixed::from_raw(7).mul_ratio(i64::MIN, i64::MIN).raw, 7);
}

#[test]
fn mul_ratio_saturates_and_does_not_fail_on_zero() {
    let max = Fixed::from_raw(i64::MAX);
    let min = Fixed::from_raw(i64::MIN);
    assert_eq!(max.mul_ratio(2, 1), max);
    assert_eq!(max.mul_ratio(-2, 1), min);
    assert_eq!(min.mul_ratio(i64::MIN, 1), max);
    assert_eq!(max.mul_ratio(i64::MAX, i64::MIN).raw, i64::MIN + 2);
    assert_eq!(Fixed::from_int(5).mul_ratio(1, 0), max);
    assert_eq!(Fixed::from_int(5).mul_ratio(-1, 0), min);
    assert_eq!(Fixed::from_int(-5).mul_ratio(-1, 0), max);
    assert_eq!(Fixed::from_int(5).mul_ratio(0, 0), Fixed::zero());
    assert_eq!(Fixed::zero().mul_ratio(3, 0), Fixed::zero());
}

#[test]
fn mul_ratio_up_rounds_away_from_zero() {
    assert_eq!(Fixed::from_int(2).mul_ratio_up(400, 800), Fixed::one());
    assert_eq!(Fixed::from_int(1).mul_ratio_up(1, 3).raw, 366503875926);
    assert_eq!(Fixed::from_int(-1).mul_ratio_up(1, 3).raw, -366503875926);
    assert_eq!(Fixed::from_int(1).mul_ratio_up(-2, -3).raw, 733007751851);
    assert_eq!(Fixed::from_raw(1).mul_ratio_up(1, i64::MAX).raw, 1);
    assert_eq!(Fixed::from_raw(-1).mul_ratio_up(1, i64::MAX).raw, -1);
    assert_eq!(Fixed::from_raw(1).mul_ratio(1, i64::MAX).raw, 0);
    assert_eq!(Fixed::zero().mul_ratio_up(5, 7).raw, 0);
    assert_eq!(Fixed::from_raw(9).mul_ratio_up(0, 7).raw, 0);
    assert_eq!(Fixed::from_int(5).mul_ratio_up(1, 0).raw, i64::MAX);
    assert_eq!(Fixed::from_int(5).mul_ratio_up(0, 0).raw, 0);
    assert_eq!(Fixed::from_raw(i64::MAX).mul_ratio_up(3, 2).raw, i64::MAX);
    assert_eq!(Fixed::from_raw(i64::MIN).mul_ratio_up(i64::MIN, i64::MAX).raw, i64::MAX);
}
