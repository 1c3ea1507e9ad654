use hue::fixed::{Fixed, SCALE};
use hue::math::{cos_turns, exp_neg, hypot, isqrt, sin_turns};

fn turns(raw: i64) -> Fixed {
    Fixed::from_raw(raw)
}

#[test]
fn cosine_and_sine_at_the_quarter_turns() {
    assert_eq!(cos_turns(turns(0)).to_raw(), SCALE);
    assert_eq!(sin_turns(turns(0)).to_raw(), 0);
    assert_eq!(cos_turns(turns(250_000_000)).to_raw(), 0);
    assert_eq!(sin_turns(turns(250_000_000)).to_raw(), SCALE);
    assert_eq!(cos_turns(turns(500_000_000)).to_raw(), -SCALE);
    assert_eq!(sin_turns(turns(500_000_000)).to_raw(), 0);
    assert_eq!(cos_turns(turns(750_000_000)).to_raw(), 0);
    assert_eq!(sin_turns(turns(750_000_000)).to_raw(), -SCALE);
}

#[test]
fn cosine_and_sine_exact_values() {
    assert_eq!(cos_turns(turns(SCALE / 6)).to_raw(), 500_000_003);
    assert_eq!(sin_turns(turns(SCALE / 6)).to_raw(), 866_025_403);
    assert_eq!(cos_turns(turns(125_000_000)).to_raw(), 707_106_782);
    assert_eq!(sin_turns(turns(125_000_000)).to_raw(), 707_106_782);
    assert_eq!(sin_turns(turns(1)).to_raw(), 6);
    assert_eq!(sin_turns(turns(499_999_999)).to_raw(), 6);
}

#[test]
fn angles_wrap_around_the_turn() {
    assert_eq!(cos_turns(turns(-333_333_334)).to_raw(), -500_000_003);
    assert_eq!(cos_turns(turns(-333_333_333)).to_raw(), -499_999_997);
    assert_eq!(sin_turns(turns(-250_000_000)).to_raw(), -SCALE);
    assert_eq!(cos_turns(turns(5 * SCALE + 125_000_000)).to_raw(), 707_106_782);
    assert_eq!(
        cos_turns(turns(i64::MIN)).to_raw(),
        cos_turns(turns(i64::MIN.rem_euclid(SCALE))).to_raw()
    );
}

#[test]
fn cosine_and_sine_follow_the_real_functions() {
    let mut t: i64 = -2 * SCALE;
    while t < 2 * SCALE {
        let angle = std::f64::consts::TAU * (t as f64) / (SCALE as f64);
        let c = cos_turns(turns(t)).to_raw() as f64 / SCALE as f64;
        let s = sin_turns(turns(t)).to_raw() as f64 / SCALE as f64;
        assert!((c - angle.cos()).abs() < 1e-8, "cos at {}", t);
        assert!((s - angle.sin()).abs() < 1e-8, "sin at {}", t);
        assert!(c.abs() <= 1.0 && s.abs() <= 1.0);
        t += 7_654_321;
    }
}

#[test]
fn exponential_exact_values() {
    assert_eq!(exp_neg(Fixed::zero()).to_raw(), SCALE);
    assert_eq!(exp_neg(Fixed::from_int(-4)).to_raw(), SCALE);
    assert_eq!(exp_neg(Fixed::from_int(1)).to_raw(), 367_879_441);
    assert_eq!(exp_neg(Fixed::from_int(2)).to_raw(), 135_335_283);
    assert_eq!(exp_neg(Fixed::from_int(10)).to_raw(), 45_399);
    assert_eq!(exp_neg(Fixed::from_raw(500_000_000)).to_raw(), 606_530_660);
    assert_eq!(exp_neg(Fixed::from_raw(500_000_001)).to_raw(), 606_530_659);
    assert_eq!(exp_neg(Fixed::from_int(30)).to_raw(), 0);
    assert_eq!(exp_neg(Fixed::from_raw(i64::MAX)).to_raw(), 0);
}

#[test]
fn exponential_follows_the_real_function() {
    let mut x: i64 = 1;
    while x < 25 * SCALE {
        let got = exp_neg(Fixed::from_raw(x)).to_raw() as f64 / SCALE as f64;
        let want = (-(x as f64) / SCALE as f64).exp();
        assert!((got - want).abs() < 1e-8, "exp at {}", x);
        x = x + x / 3 + 1;
    }
}

#[test]
fn square_roots_round_down() {
    assert_eq!(isqrt(0), 0);
    assert_eq!(isqrt(1), 1);
    assert_eq!(isqrt(3), 1);
    assert_eq!(isqrt(4), 2);
    assert_eq!(isqrt(99), 9);
    assert_eq!(isqrt(100), 10);
    assert_eq!(isqrt(u128::MAX), u64::MAX);
    assert_eq!(isqrt((u64::MAX as u128) * (u64::MAX as u128) - 1), u64::MAX - 1);
}

#[test]
fn vector_lengths() {
    assert_eq!(hypot(Fixed::from_int(3), Fixed::from_int(4)).to_raw(), 5_000_000_000);
    assert_eq!(hypot(Fixed::from_int(-3), Fixed::from_int(4)).to_raw(), 5_000_000_000);
    assert_eq!(hypot(Fixed::from_int(1), Fixed::from_int(1)).to_raw(), 1_414_213_562);
    assert_eq!(hypot(Fixed::zero(), Fixed::from_raw(-7)).to_raw(), 7);
    assert_eq!(hypot(Fixed::zero(), Fixed::zero()).to_raw(), 0);
    assert_eq!(hypot(Fixed::from_raw(i64::MIN), Fixed::from_raw(i64::MIN)).to_raw(), i64::MAX);
}
