//! Control values that the host supplies to the engine, with their defaults
//! and ranges.

use vstd::prelude::*;
use vstd::string::StringSliceAdditionalSpecFns;
use vstd::utf8::encode_utf8;
use crate::envelope::follower::EnvelopeMode;
use crate::fixed::{clamp_between, Fixed, SCALE};

verus! {

/// Raw gain of -30 dB, the smallest that can be set.
pub const GAIN_MIN: i64 = 31_622_777;

/// Raw gain of +30 dB, the largest that can be set.
pub const GAIN_MAX: i64 = 31_622_776_602;

/// Raw gain of -6 dB, the default.
pub const GAIN_DEFAULT: i64 = 501_187_234;

/// Raw default mix: half noise, half dry signal.
pub const MIX_DEFAULT: i64 = 500_000_000;

/// Raw limits and default of the high-pass cutoff, in hertz.
pub const HPF_MIN: i64 = 5_000_000_000;
pub const HPF_MAX: i64 = 5_000_000_000_000;
pub const HPF_DEFAULT: i64 = 5_000_000_000;

/// Raw limits and default of the low-pass cutoff, in hertz.
pub const LPF_MIN: i64 = 5_000_000_000_000;
pub const LPF_MAX: i64 = 20_000_000_000_000;
pub const LPF_DEFAULT: i64 = 20_000_000_000_000;

/// The colour of the generated noise.
#[derive(Clone, Copy, Debug, PartialEq, Eq, Structural)]
pub enum NoiseType {
    White,
    Pink,
    Brown,
    Violet,
}

/// The distribution that white samples are drawn from. The engine itself
/// draws uniform samples only; for a normal distribution the caller draws
/// and hands the engine the sample.
#[derive(Clone, Copy, Debug, PartialEq, Eq, Structural)]
pub enum WhiteNoiseDistribution {
    Uniform,
    Normal,
}

/// Whether two names are spelled alike.
fn same_name(a: &str, b: &str) -> (r: bool)
    ensures
        r == (a.spec_bytes() == b.spec_bytes()),
{
    let x = a.as_bytes();
    let y = b.as_bytes();
    if x.len() != y.len() {
        return false;
    }
    let mut i: usize = 0;
    while i < x.len()
        invariant
            i <= x@.len(),
            x@.len() == y@.len(),
            x@ == a.spec_bytes(),
            y@ == b.spec_bytes(),
            forall|j: int| 0 <= j < i ==> x@[j] == y@[j],
        decreases x@.len() - i,
    {
        if x[i] != y[i] {
            assert(x@[i as int] != y@[i as int]);
            return false;
        }
        i += 1;
    }
    proof {
        assert(x@ =~= y@);
    }
    true
}

/// The noise colour with the given name, spelled in lower case.
pub open spec fn noise_type_named(name: Seq<u8>) -> Option<NoiseType> {
    if name == "white".spec_bytes() {
        Some(NoiseType::White)
    } else if name == "pink".spec_bytes() {
        Some(NoiseType::Pink)
    } else if name == "brown".spec_bytes() {
        Some(NoiseType::Brown)
    } else if name == "violet".spec_bytes() {
        Some(NoiseType::Violet)
    } else {
        None
    }
}

/// The distribution with the given name, spelled in lower case.
pub open spec fn distribution_named(name: Seq<u8>) -> Option<WhiteNoiseDistribution> {
    if name == "normal".spec_bytes() {
        Some(WhiteNoiseDistribution::Normal)
    } else if name == "uniform".spec_bytes() {
        Some(WhiteNoiseDistribution::Uniform)
    } else {
        None
    }
}

impl NoiseType {
    /// The colour with the given name, if there is one.
    pub fn from_name(name: &str) -> (r: Option<NoiseType>)
        ensures
            r == noise_type_named(name.spec_bytes()),
    {
        if same_name(name, "white") {
            Some(NoiseType::White)
        } else if same_name(name, "pink") {
            Some(NoiseType::Pink)
        } else if same_name(name, "brown") {
            Some(NoiseType::Brown)
        } else if same_name(name, "violet") {
            Some(NoiseType::Violet)
        } else {
            None
        }
    }

    /// The name of the colour.
    pub fn name(&self) -> (r: &'static str)
        ensures
            r@ == match *self {
                NoiseType::White => "white"@,
                NoiseType::Pink => "pink"@,
                NoiseType::Brown => "brown"@,
                NoiseType::Violet => "violet"@,
            },
            noise_type_named(r.spec_bytes()) == Some(*self),
    {
        proof {
            lemma_names_differ();
        }
        match self {
            NoiseType::White => "white",
            NoiseType::Pink => "pink",
            NoiseType::Brown => "brown",
            NoiseType::Violet => "violet",
        }
    }

    /// The background colour that the display takes for this noise colour,
    /// as a hexadecimal RGB code.
    pub fn color(&self) -> (r: &'static str)
        ensures
            r@ == match *self {
                NoiseType::White => "#F9F6EE"@,
                NoiseType::Pink => "#FFC0CB"@,
                NoiseType::Brown => "#C19A6B"@,
                NoiseType::Violet => "#CF9FFF"@,
            },
    {
        match self {
            NoiseType::White => "#F9F6EE",
            NoiseType::Pink => "#FFC0CB",
            NoiseType::Brown => "#C19A6B",
            NoiseType::Violet => "#CF9FFF",
        }
    }
}

impl WhiteNoiseDistribution {
    /// The distribution with the given name, if there is one.
    pub fn from_name(name: &str) -> (r: Option<WhiteNoiseDistribution>)
        ensures
            r == distribution_named(name.spec_bytes()),
    {
        if same_name(name, "normal") {
            Some(WhiteNoiseDistribution::Normal)
        } else if same_name(name, "uniform") {
            Some(WhiteNoiseDistribution::Uniform)
        } else {
            None
        }
    }
}

/// The four colour names are spelled differently.
pub proof fn lemma_names_differ()
    ensures
        "white".spec_bytes() != "pink".spec_bytes(),
        "white".spec_bytes() != "brown".spec_bytes(),
        "white".spec_bytes() != "violet".spec_bytes(),
        "pink".spec_bytes() != "brown".spec_bytes(),
        "pink".spec_bytes() != "violet".spec_bytes(),
        "brown".spec_bytes() != "violet".spec_bytes(),
{
    reveal_strlit("white");
    reveal_strlit("pink");
    reveal_strlit("brown");
    reveal_strlit("violet");
    assert(vstd::string::is_ascii("white"));
    assert(vstd::string::is_ascii("pink"));
    assert(vstd::string::is_ascii("brown"));
    assert(vstd::string::is_ascii("violet"));
    vstd::string::is_ascii_spec_bytes("white");
    vstd::string::is_ascii_spec_bytes("pink");
    vstd::string::is_ascii_spec_bytes("brown");
    vstd::string::is_ascii_spec_bytes("violet");
    assert("white".spec_bytes().len() == 5);
    assert("pink".spec_bytes().len() == 4);
    assert("brown".spec_bytes().len() == 5);
    assert("violet".spec_bytes().len() == 6);
    assert("white".spec_bytes()[0] == 119u8);
    assert("brown".spec_bytes()[0] == 98u8);
}

/// A change that the editor asks for.
#[derive(Debug)]
pub enum ParamChangeEvent {
    /// A noise colour, by name.
    NoiseEvent(String),
    /// A distribution of the white samples, by name.
    WhiteNoiseDistributionEvent(String),
    /// A mix.
    MixSet(Fixed),
    /// A linear gain.
    GainSet(Fixed),
    /// A low-pass cutoff in hertz.
    LpfSet(Fixed),
    /// A high-pass cutoff in hertz.
    HpfSet(Fixed),
}

/// The controls after a change. A name that names nothing changes nothing;
/// a value out of its range is moved to the nearest in it; a new cutoff asks
/// for new filter coefficients.
pub open spec fn applied(c: Controls, event: ParamChangeEvent) -> Controls {
    match event {
        ParamChangeEvent::NoiseEvent(name) => match noise_type_named(encode_utf8(name@)) {
            Some(noise_type) => Controls { noise_type, ..c },
            None => c,
        },
        ParamChangeEvent::WhiteNoiseDistributionEvent(name) => match distribution_named(
            encode_utf8(name@),
        ) {
            Some(distribution) => Controls { white_noise_distribution: distribution, ..c },
            None => c,
        },
        ParamChangeEvent::MixSet(mix) => Controls {
            mix: clamp_between(mix@, 0, SCALE as int),
            ..c
        },
        ParamChangeEvent::GainSet(gain) => Controls {
            gain: clamp_between(gain@, GAIN_MIN as int, GAIN_MAX as int),
            ..c
        },
        ParamChangeEvent::LpfSet(fc) => Controls {
            lpf_fc: clamp_between(fc@, LPF_MIN as int, LPF_MAX as int),
            should_update_filters: true,
            ..c
        },
        ParamChangeEvent::HpfSet(fc) => Controls {
            hpf_fc: clamp_between(fc@, HPF_MIN as int, HPF_MAX as int),
            should_update_filters: true,
            ..c
        },
    }
}

/// The raw control values.
pub struct Controls {
    pub gain: int,
    pub noise_type: NoiseType,
    pub white_noise_distribution: WhiteNoiseDistribution,
    pub mix: int,
    pub hpf_fc: int,
    pub lpf_fc: int,
    pub env_mode: EnvelopeMode,
    pub should_update_filters: bool,
}

/// Whether every control value lies in its range.
pub open spec fn in_range(c: Controls) -> bool {
    &&& GAIN_MIN <= c.gain <= GAIN_MAX
    &&& 0 <= c.mix <= SCALE
    &&& HPF_MIN <= c.hpf_fc <= HPF_MAX
    &&& LPF_MIN <= c.lpf_fc <= LPF_MAX
}

/// The control values of the engine.
///
/// The fields are private: the setters keep every value in its range, and
/// a change of either cutoff raises the flag that asks for new filter
/// coefficients.
#[derive(Clone, Copy, Debug)]
pub struct NoiseParams {
    gain: Fixed,
    noise_type: NoiseType,
    white_noise_distribution: WhiteNoiseDistribution,
    mix: Fixed,
    hpf_fc: Fixed,
    lpf_fc: Fixed,
    env_mode: EnvelopeMode,
    should_update_filters: bool,
}

impl View for NoiseParams {
    type V = Controls;

    closed spec fn view(&self) -> Controls {
        Controls {
            gain: self.gain@,
            noise_type: self.noise_type,
            white_noise_distribution: self.white_noise_distribution,
            mix: self.mix@,
            hpf_fc: self.hpf_fc@,
            lpf_fc: self.lpf_fc@,
            env_mode: self.env_mode,
            should_update_filters: self.should_update_filters,
        }
    }
}

impl NoiseParams {
    #[verifier::type_invariant]
    spec fn type_inv(&self) -> bool {
        in_range(self@)
    }

    /// The default control values.
    pub open spec fn defaults(should_update_filters: bool) -> Controls {
        Controls {
            gain: GAIN_DEFAULT as int,
            noise_type: NoiseType::White,
            white_noise_distribution: WhiteNoiseDistribution::Uniform,
            mix: MIX_DEFAULT as int,
            hpf_fc: HPF_DEFAULT as int,
            lpf_fc: LPF_DEFAULT as int,
            env_mode: EnvelopeMode::Follow,
            should_update_filters,
        }
    }

    /// The default controls: white noise from a uniform distribution at
    /// -6 dB, mixed half and half, band-limited to 5 Hz .. 20 kHz, following
    /// the input's envelope.
    pub fn new(should_update_filters: bool) -> (r: NoiseParams)
        ensures
            r@ == Self::defaults(should_update_filters),
    {
        NoiseParams {
            gain: Fixed::from_raw(GAIN_DEFAULT),
            noise_type: NoiseType::White,
            white_noise_distribution: WhiteNoiseDistribution::Uniform,
            mix: Fixed::from_raw(MIX_DEFAULT),
            hpf_fc: Fixed::from_raw(HPF_DEFAULT),
            lpf_fc: Fixed::from_raw(LPF_DEFAULT),
            env_mode: EnvelopeMode::Follow,
            should_update_filters,
        }
    }

    /// The linear gain of the noise.
    pub fn gain(&self) -> (r: Fixed)
        ensures
            r@ == self@.gain,
            GAIN_MIN <= r@ <= GAIN_MAX,
    {
        proof {
            use_type_invariant(self);
        }
        self.gain
    }

    /// The share of noise in the output, between zero and one.
    pub fn mix(&self) -> (r: Fixed)
        ensures
            r@ == self@.mix,
            0 <= r@ <= SCALE,
    {
        proof {
            use_type_invariant(self);
        }
        self.mix
    }

    /// The high-pass cutoff in hertz.
    pub fn hpf_fc(&self) -> (r: Fixed)
        ensures
            r@ == self@.hpf_fc,
            HPF_MIN <= r@ <= HPF_MAX,
    {
        proof {
            use_type_invariant(self);
        }
        self.hpf_fc
    }

    /// The low-pass cutoff in hertz.
    pub fn lpf_fc(&self) -> (r: Fixed)
        ensures
            r@ == self@.lpf_fc,
            LPF_MIN <= r@ <= LPF_MAX,
    {
        proof {
            use_type_invariant(self);
        }
        self.lpf_fc
    }

    /// The colour of the noise.
    pub fn noise_type(&self) -> (r: NoiseType)
        ensures
            r == self@.noise_type,
    {
        self.noise_type
    }

    /// The distribution of the white samples.
    pub fn white_noise_distribution(&self) -> (r: WhiteNoiseDistribution)
        ensures
            r == self@.white_noise_distribution,
    {
        self.white_noise_distribution
    }

    /// The envelope mode.
    pub fn env_mode(&self) -> (r: EnvelopeMode)
        ensures
            r == self@.env_mode,
    {
        self.env_mode
    }

    /// Whether a cutoff has changed since the flag was last taken.
    pub fn should_update_filters(&self) -> (r: bool)
        ensures
            r == self@.should_update_filters,
    {
        self.should_update_filters
    }

    /// Sets the gain, limited to -30 dB .. +30 dB.
    pub fn set_gain(&mut self, gain: Fixed)
        ensures
            final(self)@ == (Controls {
                gain: clamp_between(gain@, GAIN_MIN as int, GAIN_MAX as int),
                ..old(self)@
            }),
    {
        proof {
            use_type_invariant(&*self);
        }
        self.gain = gain.clamp(Fixed::from_raw(GAIN_MIN), Fixed::from_raw(GAIN_MAX));
    }

    /// Sets the mix, limited to zero .. one.
    pub fn set_mix(&mut self, mix: Fixed)
        ensures
            final(self)@ == (Controls { mix: clamp_between(mix@, 0, SCALE as int), ..old(self)@ }),
    {
        proof {
            use_type_invariant(&*self);
        }
        self.mix = mix.clamp(Fixed::zero(), Fixed::one());
    }

    /// Sets the high-pass cutoff, limited to 5 Hz .. 5 kHz, and asks for new
    /// filter coefficients.
    pub fn set_hpf_fc(&mut self, fc: Fixed)
        ensures
            final(self)@ == (Controls {
                hpf_fc: clamp_between(fc@, HPF_MIN as int, HPF_MAX as int),
                should_update_filters: true,
                ..old(self)@
            }),
    {
        proof {
            use_type_invariant(&*self);
        }
        self.hpf_fc = fc.clamp(Fixed::from_raw(HPF_MIN), Fixed::from_raw(HPF_MAX));
        self.should_update_filters = true;
    }

    /// Sets the low-pass cutoff, limited to 5 kHz .. 20 kHz, and asks for
    /// new filter coefficients.
    pub fn set_lpf_fc(&mut self, fc: Fixed)
        ensures
            final(self)@ == (Controls {
                lpf_fc: clamp_between(fc@, LPF_MIN as int, LPF_MAX as int),
                should_update_filters: true,
                ..old(self)@
            }),
    {
        proof {
            use_type_invariant(&*self);
        }
        self.lpf_fc = fc.clamp(Fixed::from_raw(LPF_MIN), Fixed::from_raw(LPF_MAX));
        self.should_update_filters = true;
    }

    /// Sets the colour of the noise.
    pub fn set_noise_type(&mut self, noise_type: NoiseType)
        ensures
            final(self)@ == (Controls { noise_type, ..old(self)@ }),
    {
        proof {
            use_type_invariant(&*self);
        }
        self.noise_type = noise_type;
    }

    /// Sets the distribution of the white samples.
    pub fn set_white_noise_distribution(&mut self, distribution: WhiteNoiseDistribution)
        ensures
            final(self)@ == (Controls { white_noise_distribution: distribution, ..old(self)@ }),
    {
        proof {
            use_type_invariant(&*self);
        }
        self.white_noise_distribution = distribution;
    }

    /// Sets the envelope mode.
    pub fn set_env_mode(&mut self, env_mode: EnvelopeMode)
        ensures
            final(self)@ == (Controls { env_mode, ..old(self)@ }),
    {
        proof {
            use_type_invariant(&*self);
        }
        self.env_mode = env_mode;
    }

    /// Asks for new filter coefficients.
    pub fn request_filter_update(&mut self)
        ensures
            final(self)@ == (Controls { should_update_filters: true, ..old(self)@ }),
    {
        proof {
            use_type_invariant(&*self);
        }
        self.should_update_filters = true;
    }

    /// Makes the change that an event asks for.
    pub fn apply(&mut self, event: &ParamChangeEvent)
        ensures
            final(self)@ == applied(old(self)@, *event),
    {
        match event {
            ParamChangeEvent::NoiseEvent(name) => {
                match NoiseType::from_name(name.as_str()) {
                    Some(noise_type) => self.set_noise_type(noise_type),
                    None => {},
                }
            },
            ParamChangeEvent::WhiteNoiseDistributionEvent(name) => {
                match WhiteNoiseDistribution::from_name(name.as_str()) {
                    Some(distribution) => self.set_white_noise_distribution(distribution),
                    None => {},
                }
            },
            ParamChangeEvent::MixSet(mix) => self.set_mix(*mix),
            ParamChangeEvent::GainSet(gain) => self.set_gain(*gain),
            ParamChangeEvent::LpfSet(fc) => self.set_lpf_fc(*fc),
            ParamChangeEvent::HpfSet(fc) => self.set_hpf_fc(*fc),
        }
    }

    /// Reads the flag that asks for new filter coefficients and lowers it.
    pub fn take_should_update_filters(&mut self) -> (r: bool)
        ensures
            r == old(self)@.should_update_filters,
            final(self)@ == (Controls { should_update_filters: false, ..old(self)@ }),
    {
        proof {
            use_type_invariant(&*self);
        }
        let r = self.should_update_filters;
        self.should_update_filters = false;
        r
    }
}

} // verus!
