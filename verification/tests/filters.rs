use hue::filters::biquad::Biquad;
use hue::filters::coefficients::{FilterCoefficients, FilterType};
use hue::fixed::{Fixed, SCALE};

const SAMPLE_RATE: i64 = 44_100 * SCALE;

fn hz(value: i64) -> Fixed {
    Fixed::from_raw(value * SCALE)
}

fn taps(c: &FilterCoefficients) -> [i64; 6] {
    [c.b0.raw, c.b1.raw, c.b2.raw, c.a0.raw, c.a1.raw, c.a2.raw]
}

fn derived(fc: Fixed, sample_rate: Fixed, filter_type: FilterType) -> FilterCoefficients {
    let mut c = FilterCoefficients::default();
    c.update(fc, sample_rate, filter_type);
    c
}

fn is_stable(c: &FilterCoefficients) -> bool {
    let a1 = c.a1.raw;
    let a2 = c.a2.raw;
    -SCALE < a2 && a2 < SCALE && a1 < SCALE + a2 && -a1 < SCALE + a2
}

#[test]
fn default_coefficients_are_zero() {
    assert_eq!(taps(&FilterCoefficients::default()), [0, 0, 0, 0, 0, 0]);
}

#[test]
fn lowpass_at_one_kilohertz() {
    let c = derived(hz(1000), Fixed::from_raw(SAMPLE_RATE), FilterType::Lowpass);
    assert_eq!(
        taps(&c),
        [4_603_997, 9_207_995, 4_603_997, 1_100_405_140, -1_799_096_420, 817_512_411]
    );
}

#[test]
fn lowpass_at_twenty_kilohertz() {
    let c = derived(hz(20_000), Fixed::from_raw(SAMPLE_RATE), FilterType::Lowpass);
    assert_eq!(
        taps(&c),
        [813_243_919, 1_626_487_839, 813_243_919, 1_203_604_644, 1_591_300_468, 661_675_210]
    );
}

#[test]
fn highpass_at_five_hertz() {
    let c = derived(hz(5), Fixed::from_raw(SAMPLE_RATE), FilterType::Highpass);
    assert_eq!(
        taps(&c),
        [999_496_403, -1_998_992_808, 999_496_403, 1_000_503_723, -1_998_992_555, 998_993_061]
    );
}

#[test]
fn lowpass_follows_the_cookbook_formula() {
    for fc in [20.0f64, 440.0, 1000.0, 5000.0, 12_345.0, 20_000.0] {
        let c = derived(
            Fixed::from_raw((fc * SCALE as f64) as i64),
            Fixed::from_raw(SAMPLE_RATE),
            FilterType::Lowpass,
        );
        let omega = std::f64::consts::TAU * fc / 44_100.0;
        let alpha = omega.sin() / (2.0 * std::f64::consts::FRAC_1_SQRT_2);
        let a0 = 1.0 + alpha;
        let want = [
            (1.0 - omega.cos()) / 2.0 / a0,
            (1.0 - omega.cos()) / a0,
            (1.0 - omega.cos()) / 2.0 / a0,
            a0,
            -2.0 * omega.cos() / a0,
            (1.0 - alpha) / a0,
        ];
        let got = taps(&c);
        for i in 0..6 {
            assert!((got[i] as f64 / SCALE as f64 - want[i]).abs() < 1e-7, "tap {} at {}", i, fc);
        }
    }
}

#[test]
fn highpass_follows_the_cookbook_formula() {
    for fc in [5.0f64, 80.0, 1000.0, 5000.0] {
        let c = derived(
            Fixed::from_raw((fc * SCALE as f64) as i64),
            Fixed::from_raw(SAMPLE_RATE),
            FilterType::Highpass,
        );
        let omega = std::f64::consts::TAU * fc / 44_100.0;
        let alpha = omega.sin() / (2.0 * std::f64::consts::FRAC_1_SQRT_2);
        let a0 = 1.0 + alpha;
        let want = [
            (1.0 + omega.cos()) / 2.0 / a0,
            -(1.0 + omega.cos()) / a0,
            (1.0 + omega.cos()) / 2.0 / a0,
            a0,
            -2.0 * omega.cos() / a0,
            (1.0 - alpha) / a0,
        ];
        let got = taps(&c);
        for i in 0..6 {
            assert!((got[i] as f64 / SCALE as f64 - want[i]).abs() < 1e-7, "tap {} at {}", i, fc);
        }
    }
}

#[test]
fn derived_coefficients_are_stable_across_the_band() {
    let mut fc: i64 = 1;
    while fc < 22_050 * SCALE {
        for filter_type in [FilterType::Lowpass, FilterType::Highpass] {
            let c = derived(Fixed::from_raw(fc), Fixed::from_raw(SAMPLE_RATE), filter_type);
            assert!(is_stable(&c), "cutoff {}", fc);
            assert!(SCALE < c.a0.raw && c.a0.raw <= 2 * SCALE);
        }
        fc = fc + fc / 2 + 1;
    }
}

#[test]
fn cutoff_at_or_above_nyquist_is_held_below_it() {
    let sr = Fixed::from_raw(SAMPLE_RATE);
    let at = derived(hz(22_050), sr, FilterType::Lowpass);
    let above = derived(hz(30_000), sr, FilterType::Lowpass);
    assert_eq!(taps(&at), taps(&above));
    assert_eq!(
        taps(&above),
        [999_999_995, 1_999_999_991, 999_999_995, 1_000_000_004, 1_999_999_990, 999_999_992]
    );
    assert!(is_stable(&above));
}

#[test]
fn cutoff_at_or_below_zero_is_held_above_it() {
    let sr = Fixed::from_raw(SAMPLE_RATE);
    let zero = derived(Fixed::zero(), sr, FilterType::Lowpass);
    let negative = derived(hz(-5), sr, FilterType::Lowpass);
    assert_eq!(taps(&zero), taps(&negative));
    assert_eq!(taps(&zero), [0, 0, 0, 1_000_000_004, -1_999_999_990, 999_999_992]);
    assert!(is_stable(&zero));
}

#[test]
fn coefficients_are_stable_for_a_zero_or_negative_sample_rate() {
    for sr in [0, -SAMPLE_RATE, 1, i64::MIN, i64::MAX] {
        for filter_type in [FilterType::Lowpass, FilterType::Highpass] {
            let c = derived(hz(1000), Fixed::from_raw(sr), filter_type);
            assert!(is_stable(&c), "sample rate {}", sr);
        }
    }
}

#[test]
fn update_replaces_every_coefficient() {
    let sr = Fixed::from_raw(SAMPLE_RATE);
    let mut c = derived(hz(1000), sr, FilterType::Lowpass);
    c.update(hz(5), sr, FilterType::Highpass);
    assert_eq!(taps(&c), taps(&derived(hz(5), sr, FilterType::Highpass)));
}

#[test]
fn biquad_impulse_response() {
    let mut filter = Biquad::default();
    filter.coefficients.update(hz(1000), Fixed::from_raw(SAMPLE_RATE), FilterType::Lowpass);
    let input = [SCALE, 0, 0, 0, 0];
    let out: Vec<i64> = input.iter().map(|x| filter.process(Fixed::from_raw(*x)).raw).collect();
    assert_eq!(out, vec![4_603_997, 17_491_029, 32_308_220, 43_826_469, 52_435_673]);
}

#[test]
fn biquad_registers_follow_the_recurrence() {
    let mut filter = Biquad::default();
    filter.coefficients.b0 = Fixed::from_int(2);
    filter.coefficients.b1 = Fixed::from_int(3);
    filter.coefficients.b2 = Fixed::from_int(5);
    filter.coefficients.a1 = Fixed::from_int(7);
    filter.coefficients.a2 = Fixed::from_int(11);
    let out = filter.process(Fixed::from_int(1));
    assert_eq!(out.raw, 2 * SCALE);
    assert_eq!(filter.s1.raw, (3 - 14) * SCALE);
    assert_eq!(filter.s2.raw, (5 - 22) * SCALE);
    let out = filter.process(Fixed::from_int(1));
    assert_eq!(out.raw, (2 - 11) * SCALE);
    assert_eq!(filter.s1.raw, (-17 + 3 + 63) * SCALE);
    assert_eq!(filter.s2.raw, (5 + 99) * SCALE);
}

#[test]
fn biquad_is_silent_on_silence() {
    let sr = Fixed::from_raw(SAMPLE_RATE);
    for filter_type in [FilterType::Lowpass, FilterType::Highpass] {
        let mut filter = Biquad::default();
        filter.coefficients.update(hz(3000), sr, filter_type);
        for _ in 0..1000 {
            assert_eq!(filter.process(Fixed::zero()).raw, 0);
        }
        assert_eq!(filter.s1.raw, 0);
        assert_eq!(filter.s2.raw, 0);
    }
    let mut wild = Biquad::default();
    wild.coefficients.b0 = Fixed::from_raw(i64::MAX);
    wild.coefficients.a1 = Fixed::from_raw(i64::MIN);
    wild.coefficients.a2 = Fixed::from_raw(i64::MAX);
    for _ in 0..10 {
        assert_eq!(wild.process(Fixed::zero()).raw, 0);
    }
}

#[test]
fn biquad_reset_clears_the_registers_only() {
    let mut filter = Biquad::default();
    filter.coefficients.update(hz(1000), Fixed::from_raw(SAMPLE_RATE), FilterType::Lowpass);
    let first = filter.process(Fixed::one()).raw;
    filter.process(Fixed::one());
    filter.reset();
    assert_eq!(filter.s1.raw, 0);
    assert_eq!(filter.s2.raw, 0);
    assert_eq!(filter.process(Fixed::one()).raw, first);
}

#[test]
fn biquad_saturates_instead_of_wrapping() {
    let mut filter = Biquad::default();
    filter.coefficients.b0 = Fixed::from_int(1_000_000);
    filter.coefficients.b1 = Fixed::from_int(1_000_000);
    let big = Fixed::from_raw(i64::MAX);
    assert_eq!(filter.process(big).raw, i64::MAX);
    assert_eq!(filter.process(big).raw, i64::MAX);
}

#[test]
fn lowpass_passes_a_constant_and_highpass_blocks_it() {
    let sr = Fixed::from_raw(SAMPLE_RATE);
    let mut low = Biquad::default();
    low.coefficients.update(hz(1000), sr, FilterType::Lowpass);
    let mut high = Biquad::default();
    high.coefficients.update(hz(1000), sr, FilterType::Highpass);
    let mut last_low = 0;
    let mut last_high = 0;
    for _ in 0..5000 {
        last_low = low.process(Fixed::one()).raw;
        last_high = high.process(Fixed::one()).raw;
    }
    assert!((last_low - SCALE).abs() < 1000, "{}", last_low);
    assert!(last_high.abs() < 1000, "{}", last_high);
}
