use hue::fixed::{Fixed, SCALE};
use hue::noise::{Brown, NoiseConfig, Pink, Violet, White, BROWN_LEAK};
use rand::rngs::StdRng;
use rand::SeedableRng;

fn whites(values: &[i64]) -> Vec<Fixed> {
    values.iter().map(|v| Fixed::from_raw(*v)).collect()
}

#[test]
fn white_draws_stay_in_range() {
    let mut rng = StdRng::seed_from_u64(7);
    let mut white = White::new();
    let mut least = i64::MAX;
    let mut most = i64::MIN;
    for _ in 0..10_000 {
        let w = white.next(&mut rng).to_raw();
        assert!(-SCALE <= w && w < SCALE);
        least = least.min(w);
        most = most.max(w);
    }
    assert!(least < -900_000_000, "{}", least);
    assert!(most > 900_000_000, "{}", most);
}

#[test]
fn white_draws_are_spread_evenly() {
    let mut rng = StdRng::seed_from_u64(11);
    let mut white = White::new();
    let mut sum: f64 = 0.0;
    let mut squares: f64 = 0.0;
    let n = 20_000;
    for _ in 0..n {
        let w = white.white(&mut rng).to_raw() as f64 / SCALE as f64;
        sum += w;
        squares += w * w;
    }
    assert!((sum / n as f64).abs() < 0.02);
    assert!((squares / n as f64 - 1.0 / 3.0).abs() < 0.02);
}

#[test]
fn white_is_the_white_sample() {
    let mut white = White::new();
    for w in [-SCALE, -1, 0, 5, SCALE] {
        assert_eq!(white.advance(Fixed::from_raw(w)).to_raw(), w);
    }
    white.reset();
    assert_eq!(white.advance(Fixed::from_raw(3)).to_raw(), 3);
}

#[test]
fn the_same_seed_gives_the_same_noise() {
    let mut first = StdRng::seed_from_u64(99);
    let mut second = StdRng::seed_from_u64(99);
    let mut a = Pink::new();
    let mut b = Pink::new();
    for _ in 0..500 {
        assert_eq!(a.next(&mut first).to_raw(), b.next(&mut second).to_raw());
    }
}

#[test]
fn pink_filter_bank_exact_values() {
    let mut pink = Pink::new();
    let out: Vec<i64> = whites(&[SCALE, -500_000_000, 250_000_000, 0])
        .into_iter()
        .map(|w| pink.advance(w).to_raw())
        .collect();
    assert_eq!(out, vec![181_190_416, 16_112_116, 64_375_065, 52_834_031]);
}

#[test]
fn pink_first_sample_is_the_weighted_white() {
    // With all taps at zero the first output is
    // (0.0555179 + 0.0750759 + 0.1538520 + 0.3104856 + 0.5329522 - 0.0168980 + 0.5362) * 0.11.
    let mut pink = Pink::new();
    assert_eq!(pink.advance(Fixed::one()).to_raw(), 181_190_416);
}

#[test]
fn pink_reset_matches_a_new_generator() {
    let mut used = Pink::new();
    let mut rng = StdRng::seed_from_u64(3);
    for _ in 0..1000 {
        used.next(&mut rng);
    }
    used.reset();
    let mut fresh = Pink::new();
    for w in whites(&[SCALE, -500_000_000, 250_000_000, 0, 999_999_999, -SCALE]) {
        assert_eq!(used.advance(w).to_raw(), fresh.advance(w).to_raw());
    }
}

#[test]
fn pink_is_silent_on_silence() {
    let mut pink = Pink::new();
    for _ in 0..100 {
        assert_eq!(pink.advance(Fixed::zero()).to_raw(), 0);
    }
}

#[test]
fn brown_integrator_exact_values() {
    let mut brown = Brown::new(Fixed::from_raw(BROWN_LEAK));
    let out: Vec<i64> = whites(&[SCALE, SCALE, -SCALE, 333_333_333])
        .into_iter()
        .map(|w| brown.advance(w).to_raw())
        .collect();
    assert_eq!(out, vec![10_000_000, 19_900_000, 9_701_000, 12_937_323]);
}

#[test]
fn brown_step_is_bounded_by_the_leak() {
    let mut rng = StdRng::seed_from_u64(5);
    let mut brown = Brown::new(Fixed::from_raw(BROWN_LEAK));
    let mut previous: i64 = 0;
    for _ in 0..10_000 {
        let now = brown.next(&mut rng).to_raw();
        let bound = (BROWN_LEAK as i128) * (previous.abs() as i128)
            + ((SCALE - BROWN_LEAK) as i128) * (SCALE as i128);
        assert!((now.abs() as i128) * (SCALE as i128) <= bound);
        assert!(now.abs() <= SCALE);
        previous = now;
    }
}

#[test]
fn brown_reset_clears_the_integrator_and_keeps_the_leak() {
    let mut brown = Brown::new(Fixed::from_raw(500_000_000));
    assert_eq!(brown.advance(Fixed::one()).to_raw(), 500_000_000);
    assert_eq!(brown.advance(Fixed::one()).to_raw(), 750_000_000);
    brown.reset();
    assert_eq!(brown.advance(Fixed::one()).to_raw(), 500_000_000);
    assert_eq!(brown.advance(Fixed::one()).to_raw(), 750_000_000);
}

#[test]
fn brown_reset_matches_a_new_generator_of_the_same_leak() {
    for leak in [0, 250_000_000, BROWN_LEAK, SCALE] {
        let mut used = Brown::new(Fixed::from_raw(leak));
        let mut rng = StdRng::seed_from_u64(13);
        for _ in 0..1000 {
            used.next(&mut rng);
        }
        used.reset();
        let mut fresh = Brown::new(Fixed::from_raw(leak));
        for w in whites(&[SCALE, -500_000_000, 250_000_000, 0, 999_999_999, -SCALE]) {
            assert_eq!(used.advance(w).to_raw(), fresh.advance(w).to_raw());
        }
    }
}

#[test]
fn violet_is_the_difference_of_attenuated_whites() {
    let mut violet = Violet::new();
    let out: Vec<i64> = whites(&[SCALE, SCALE, -500_000_000, -500_000_000, 123_456_789])
        .into_iter()
        .map(|w| violet.advance(w).to_raw())
        .collect();
    assert_eq!(out, vec![100_000_000, 0, -150_000_000, 0, 62_345_678]);
}

#[test]
fn violet_is_silent_on_a_constant_input_after_the_first_sample() {
    for w in [-SCALE, -1, 0, 777_777_777, SCALE] {
        let mut violet = Violet::new();
        violet.advance(Fixed::from_raw(w));
        for _ in 0..50 {
            assert_eq!(violet.advance(Fixed::from_raw(w)).to_raw(), 0);
        }
    }
}

#[test]
fn violet_reset_forgets_the_previous_sample() {
    let mut violet = Violet::new();
    violet.advance(Fixed::one());
    violet.reset();
    assert_eq!(violet.advance(Fixed::one()).to_raw(), 100_000_000);
}

#[test]
fn violet_draws_stay_within_a_fifth() {
    let mut rng = StdRng::seed_from_u64(21);
    let mut violet = Violet::new();
    for _ in 0..10_000 {
        assert!(violet.next(&mut rng).to_raw().abs() <= 200_000_000);
    }
}
