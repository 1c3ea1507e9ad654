use hue::envelope::follower::EnvelopeMode;
use hue::filters::coefficients::FilterType;
use hue::fixed::{Fixed, SCALE};
use hue::params::{
    NoiseParams, NoiseType, ParamChangeEvent, WhiteNoiseDistribution, GAIN_DEFAULT, GAIN_MAX,
    GAIN_MIN, HPF_MAX, HPF_MIN, LPF_MAX, LPF_MIN,
};

#[test]
fn default_controls() {
    let p = NoiseParams::new(true);
    assert_eq!(p.gain().to_raw(), 501_187_234);
    assert_eq!(p.gain().to_raw(), GAIN_DEFAULT);
    assert_eq!(p.mix().to_raw(), 500_000_000);
    assert_eq!(p.hpf_fc().to_raw(), 5 * SCALE);
    assert_eq!(p.lpf_fc().to_raw(), 20_000 * SCALE);
    assert_eq!(p.noise_type(), NoiseType::White);
    assert_eq!(p.white_noise_distribution(), WhiteNoiseDistribution::Uniform);
    assert_eq!(p.env_mode(), EnvelopeMode::Follow);
    assert!(p.should_update_filters());
    assert!(!NoiseParams::new(false).should_update_filters());
}

#[test]
fn gain_limits_are_thirty_decibels_either_way() {
    assert!((GAIN_MIN as f64 / SCALE as f64 - 10f64.powf(-30.0 / 20.0)).abs() < 1e-9);
    assert!((GAIN_MAX as f64 / SCALE as f64 - 10f64.powf(30.0 / 20.0)).abs() < 1e-9);
    assert!((GAIN_DEFAULT as f64 / SCALE as f64 - 10f64.powf(-6.0 / 20.0)).abs() < 1e-9);
}

#[test]
fn values_are_held_in_their_ranges() {
    let mut p = NoiseParams::new(false);
    p.set_gain(Fixed::from_int(-1));
    assert_eq!(p.gain().to_raw(), GAIN_MIN);
    p.set_gain(Fixed::from_int(1000));
    assert_eq!(p.gain().to_raw(), GAIN_MAX);
    p.set_gain(Fixed::from_int(2));
    assert_eq!(p.gain().to_raw(), 2 * SCALE);
    p.set_mix(Fixed::from_raw(-1));
    assert_eq!(p.mix().to_raw(), 0);
    p.set_mix(Fixed::from_raw(SCALE + 1));
    assert_eq!(p.mix().to_raw(), SCALE);
    p.set_mix(Fixed::from_raw(250_000_000));
    assert_eq!(p.mix().to_raw(), 250_000_000);
    p.set_hpf_fc(Fixed::from_int(1));
    assert_eq!(p.hpf_fc().to_raw(), HPF_MIN);
    p.set_hpf_fc(Fixed::from_int(6000));
    assert_eq!(p.hpf_fc().to_raw(), HPF_MAX);
    p.set_lpf_fc(Fixed::from_int(1));
    assert_eq!(p.lpf_fc().to_raw(), LPF_MIN);
    p.set_lpf_fc(Fixed::from_int(96_000));
    assert_eq!(p.lpf_fc().to_raw(), LPF_MAX);
    assert!(!p.should_update_filters() || p.take_should_update_filters());
}

#[test]
fn a_new_cutoff_asks_for_new_coefficients() {
    let mut p = NoiseParams::new(false);
    p.set_gain(Fixed::one());
    p.set_mix(Fixed::one());
    p.set_noise_type(NoiseType::Pink);
    p.set_env_mode(EnvelopeMode::Continuous);
    p.set_white_noise_distribution(WhiteNoiseDistribution::Normal);
    assert!(!p.should_update_filters());
    p.set_hpf_fc(Fixed::from_int(100));
    assert!(p.should_update_filters());
    assert!(p.take_should_update_filters());
    assert!(!p.should_update_filters());
    assert!(!p.take_should_update_filters());
    p.set_lpf_fc(Fixed::from_int(10_000));
    assert!(p.take_should_update_filters());
    p.request_filter_update();
    assert!(p.should_update_filters());
    assert_eq!(p.noise_type(), NoiseType::Pink);
    assert_eq!(p.env_mode(), EnvelopeMode::Continuous);
    assert_eq!(p.white_noise_distribution(), WhiteNoiseDistribution::Normal);
    assert_eq!(p.hpf_fc().to_raw(), 100 * SCALE);
    assert_eq!(p.lpf_fc().to_raw(), 10_000 * SCALE);
}

#[test]
fn variants_are_distinct() {
    assert_ne!(NoiseType::White, NoiseType::Pink);
    assert_ne!(NoiseType::Brown, NoiseType::Violet);
    assert_ne!(FilterType::Lowpass, FilterType::Highpass);
    assert_ne!(WhiteNoiseDistribution::Uniform, WhiteNoiseDistribution::Normal);
}

#[test]
fn telemetry_starts_at_zero() {
    let d = hue::config::Debug::default();
    assert_eq!(d.current_sample_val.raw, 0);
    assert_eq!(d.max_sample_val.raw, 0);
    assert_eq!(d.min_sample_val.raw, 0);
    assert_eq!(d.sample_rate.raw, 0);
    assert_eq!(d.output_buffer.raw, 0);
    assert_eq!(d.mix.raw, 500_000_000);
    assert_eq!(d.gain.raw, 0);
    assert_eq!(d.envelope.raw, 0);
}

#[test]
fn telemetry_tracks_the_extremes() {
    let mut d = hue::config::Debug::default();
    let fx = Fixed::from_raw;
    d.update(fx(5), fx(44_100), fx(1), fx(2), fx(3));
    assert_eq!(
        (d.current_sample_val.raw, d.max_sample_val.raw, d.min_sample_val.raw),
        (5, 5, 0)
    );
    assert_eq!((d.sample_rate.raw, d.mix.raw, d.gain.raw, d.envelope.raw), (44_100, 1, 2, 3));
    d.update(fx(-7), fx(48_000), fx(4), fx(5), fx(6));
    assert_eq!(
        (d.current_sample_val.raw, d.max_sample_val.raw, d.min_sample_val.raw),
        (-7, 5, -7)
    );
    assert_eq!((d.sample_rate.raw, d.mix.raw, d.gain.raw, d.envelope.raw), (48_000, 4, 5, 6));
    d.update(fx(1), fx(48_000), fx(4), fx(5), fx(6));
    assert_eq!(
        (d.current_sample_val.raw, d.max_sample_val.raw, d.min_sample_val.raw),
        (1, 5, -7)
    );
    assert_eq!(d.output_buffer.raw, 0);
}

#[test]
fn telemetry_raises_the_maximum_before_it_lowers_the_minimum() {
    let mut d = hue::config::Debug::default();
    d.max_sample_val = Fixed::from_raw(-10);
    d.min_sample_val = Fixed::from_raw(10);
    let z = Fixed::zero();
    d.update(Fixed::from_raw(0), z, z, z, z);
    assert_eq!((d.max_sample_val.raw, d.min_sample_val.raw), (0, 10));
}

#[test]
fn colours_have_names() {
    let all = [NoiseType::White, NoiseType::Pink, NoiseType::Brown, NoiseType::Violet];
    let names = ["white", "pink", "brown", "violet"];
    for (noise_type, name) in all.iter().zip(names.iter()) {
        assert_eq!(noise_type.name(), *name);
        assert_eq!(NoiseType::from_name(name), Some(*noise_type));
    }
    for other in ["", "White", "whit", "whitee", "grey", "violet ", "pin", "brow"] {
        assert_eq!(NoiseType::from_name(other), None);
    }
}

#[test]
fn distributions_have_names() {
    assert_eq!(
        WhiteNoiseDistribution::from_name("normal"),
        Some(WhiteNoiseDistribution::Normal)
    );
    assert_eq!(
        WhiteNoiseDistribution::from_name("uniform"),
        Some(WhiteNoiseDistribution::Uniform)
    );
    assert_eq!(WhiteNoiseDistribution::from_name("Normal"), None);
    assert_eq!(WhiteNoiseDistribution::from_name(""), None);
}

#[test]
fn colours_have_display_colours() {
    assert_eq!(NoiseType::White.color(), "#F9F6EE");
    assert_eq!(NoiseType::Pink.color(), "#FFC0CB");
    assert_eq!(NoiseType::Brown.color(), "#C19A6B");
    assert_eq!(NoiseType::Violet.color(), "#CF9FFF");
}

#[test]
fn events_change_the_controls() {
    let mut p = NoiseParams::new(false);
    p.apply(&ParamChangeEvent::NoiseEvent("brown".to_string()));
    assert_eq!(p.noise_type(), NoiseType::Brown);
    p.apply(&ParamChangeEvent::NoiseEvent("grey".to_string()));
    assert_eq!(p.noise_type(), NoiseType::Brown);
    p.apply(&ParamChangeEvent::WhiteNoiseDistributionEvent("normal".to_string()));
    assert_eq!(p.white_noise_distribution(), WhiteNoiseDistribution::Normal);
    p.apply(&ParamChangeEvent::WhiteNoiseDistributionEvent("flat".to_string()));
    assert_eq!(p.white_noise_distribution(), WhiteNoiseDistribution::Normal);
    p.apply(&ParamChangeEvent::WhiteNoiseDistributionEvent("uniform".to_string()));
    assert_eq!(p.white_noise_distribution(), WhiteNoiseDistribution::Uniform);
    p.apply(&ParamChangeEvent::MixSet(Fixed::from_raw(750_000_000)));
    assert_eq!(p.mix().to_raw(), 750_000_000);
    p.apply(&ParamChangeEvent::MixSet(Fixed::from_int(2)));
    assert_eq!(p.mix().to_raw(), SCALE);
    p.apply(&ParamChangeEvent::GainSet(Fixed::from_int(3)));
    assert_eq!(p.gain().to_raw(), 3 * SCALE);
    p.apply(&ParamChangeEvent::GainSet(Fixed::zero()));
    assert_eq!(p.gain().to_raw(), GAIN_MIN);
    assert!(!p.should_update_filters());
    p.apply(&ParamChangeEvent::LpfSet(Fixed::from_int(7_000)));
    assert_eq!(p.lpf_fc().to_raw(), 7_000 * SCALE);
    assert!(p.take_should_update_filters());
    p.apply(&ParamChangeEvent::HpfSet(Fixed::from_int(7_000)));
    assert_eq!(p.hpf_fc().to_raw(), HPF_MAX);
    assert!(p.take_should_update_filters());
}
