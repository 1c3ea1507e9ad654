use hue::fixed::{Fixed, SCALE};

fn fx(raw: i64) -> Fixed {
    Fixed::from_raw(raw)
}

#[test]
fn product_of_halves_is_a_quarter() {
    let half = fx(500_000_000);
    assert_eq!(half.sat_mul(half).to_raw(), 250_000_000);
}

#[test]
fn scale_is_a_billion() {
    assert_eq!(SCALE, 1_000_000_000);
    assert_eq!(Fixed::one().to_raw(), SCALE);
    assert_eq!(Fixed::zero().to_raw(), 0);
    assert_eq!(Fixed::from_int(-3).to_raw(), -3_000_000_000);
    assert_eq!(Fixed::from_int(i32::MAX).to_raw(), 2_147_483_647_000_000_000);
}

#[test]
fn products_round_toward_zero() {
    assert_eq!(fx(-1).sat_mul(fx(500_000_000)).to_raw(), 0);
    assert_eq!(fx(-3).sat_mul(fx(500_000_000)).to_raw(), -1);
    assert_eq!(fx(3).sat_mul(fx(500_000_000)).to_raw(), 1);
    assert_eq!(fx(3).sat_mul(fx(-500_000_000)).to_raw(), -1);
}

#[test]
fn product_with_one_and_zero() {
    for raw in [i64::MIN, -7, 0, 1, 123_456_789_012, i64::MAX] {
        assert_eq!(fx(raw).sat_mul(Fixed::one()).to_raw(), raw);
        assert_eq!(Fixed::one().sat_mul(fx(raw)).to_raw(), raw);
        assert_eq!(fx(raw).sat_mul(Fixed::zero()).to_raw(), 0);
    }
}

#[test]
fn products_saturate() {
    let big = fx(i64::MAX);
    assert_eq!(big.sat_mul(Fixed::from_int(2)).to_raw(), i64::MAX);
    assert_eq!(big.sat_mul(Fixed::from_int(-2)).to_raw(), i64::MIN);
    assert_eq!(fx(i64::MIN).sat_mul(fx(i64::MIN)).to_raw(), i64::MAX);
}

#[test]
fn sums_and_differences_saturate() {
    assert_eq!(fx(i64::MAX).sat_add(fx(1)).to_raw(), i64::MAX);
    assert_eq!(fx(i64::MIN).sat_add(fx(-1)).to_raw(), i64::MIN);
    assert_eq!(fx(i64::MIN).sat_sub(fx(1)).to_raw(), i64::MIN);
    assert_eq!(fx(i64::MAX).sat_sub(fx(-1)).to_raw(), i64::MAX);
    assert_eq!(fx(5).sat_add(fx(-7)).to_raw(), -2);
    assert_eq!(fx(5).sat_sub(fx(-7)).to_raw(), 12);
}

#[test]
fn negation_and_magnitude_of_the_least_value_saturate() {
    assert_eq!(fx(i64::MIN).sat_neg().to_raw(), i64::MAX);
    assert_eq!(fx(i64::MIN).abs().to_raw(), i64::MAX);
    assert_eq!(fx(-5).abs().to_raw(), 5);
    assert_eq!(fx(5).abs().to_raw(), 5);
    assert_eq!(fx(5).sat_neg().to_raw(), -5);
}

#[test]
fn quotients_round_toward_zero() {
    assert_eq!(Fixed::from_int(-1).sat_div(Fixed::from_int(3)).to_raw(), -333_333_333);
    assert_eq!(Fixed::from_int(1).sat_div(Fixed::from_int(-3)).to_raw(), -333_333_333);
    assert_eq!(Fixed::from_int(-1).sat_div(Fixed::from_int(-3)).to_raw(), 333_333_333);
    assert_eq!(Fixed::from_int(7).sat_div(Fixed::from_int(2)).to_raw(), 3_500_000_000);
    assert_eq!(fx(1).sat_div(fx(3)).to_raw(), 333_333_333);
}

#[test]
fn division_by_zero_saturates_by_sign() {
    assert_eq!(fx(1).sat_div(Fixed::zero()).to_raw(), i64::MAX);
    assert_eq!(fx(-1).sat_div(Fixed::zero()).to_raw(), i64::MIN);
    assert_eq!(fx(0).sat_div(Fixed::zero()).to_raw(), 0);
}

#[test]
fn quotients_saturate() {
    assert_eq!(fx(i64::MAX).sat_div(fx(1)).to_raw(), i64::MAX);
    assert_eq!(fx(i64::MIN).sat_div(fx(1)).to_raw(), i64::MIN);
    assert_eq!(fx(i64::MIN).sat_div(fx(-1)).to_raw(), i64::MAX);
}

#[test]
fn division_by_a_whole_number() {
    assert_eq!(fx(7).div_int(2).to_raw(), 3);
    assert_eq!(fx(-7).div_int(2).to_raw(), -3);
    assert_eq!(fx(i64::MIN).div_int(1).to_raw(), i64::MIN);
}

#[test]
fn wide_values_are_brought_into_range() {
    assert_eq!(Fixed::from_wide(i128::MAX).to_raw(), i64::MAX);
    assert_eq!(Fixed::from_wide(i128::MIN).to_raw(), i64::MIN);
    assert_eq!(Fixed::from_wide(-42).to_raw(), -42);
}

#[test]
fn order_and_limits() {
    assert!(fx(1).lt(fx(2)));
    assert!(!fx(2).lt(fx(2)));
    assert_eq!(fx(1).max(fx(2)).to_raw(), 2);
    assert_eq!(fx(3).max(fx(2)).to_raw(), 3);
    assert_eq!(fx(5).clamp(fx(-1), fx(1)).to_raw(), 1);
    assert_eq!(fx(-5).clamp(fx(-1), fx(1)).to_raw(), -1);
    assert_eq!(fx(0).clamp(fx(-1), fx(1)).to_raw(), 0);
}

#[test]
fn equality_is_by_raw_value() {
    assert_eq!(fx(5), Fixed { raw: 5 });
    assert_ne!(fx(5), fx(6));
}
