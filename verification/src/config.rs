//! Telemetry of the engine for a debug display.

use vstd::prelude::*;
use crate::fixed::Fixed;

verus! {

/// Raw mix that the telemetry shows before the first update.
pub const INITIAL_MIX: i64 = 500_000_000;

/// The raw values of the telemetry.
pub struct Readings {
    pub current_sample_val: int,
    pub max_sample_val: int,
    pub min_sample_val: int,
    pub sample_rate: int,
    pub output_buffer: int,
    pub mix: int,
    pub gain: int,
    pub envelope: int,
}

/// The readings after an update: the five values given are stored, and the
/// sample raises the maximum if it is above it, or else lowers the minimum
/// if it is below that.
pub open spec fn updated(
    r: Readings,
    sample_value: int,
    sample_rate: int,
    mix_level: int,
    gain_level: int,
    envelope: int,
) -> Readings {
    Readings {
        current_sample_val: sample_value,
        max_sample_val: if sample_value > r.max_sample_val {
            sample_value
        } else {
            r.max_sample_val
        },
        min_sample_val: if sample_value <= r.max_sample_val && sample_value < r.min_sample_val {
            sample_value
        } else {
            r.min_sample_val
        },
        sample_rate,
        output_buffer: r.output_buffer,
        mix: mix_level,
        gain: gain_level,
        envelope,
    }
}

/// A snapshot of what the engine last did.
#[derive(Clone, Copy)]
pub struct Debug {
    pub current_sample_val: Fixed,
    pub max_sample_val: Fixed,
    pub min_sample_val: Fixed,
    pub sample_rate: Fixed,
    pub output_buffer: Fixed,
    pub mix: Fixed,
    pub gain: Fixed,
    pub envelope: Fixed,
}

impl View for Debug {
    type V = Readings;

    open spec fn view(&self) -> Readings {
        Readings {
            current_sample_val: self.current_sample_val@,
            max_sample_val: self.max_sample_val@,
            min_sample_val: self.min_sample_val@,
            sample_rate: self.sample_rate@,
            output_buffer: self.output_buffer@,
            mix: self.mix@,
            gain: self.gain@,
            envelope: self.envelope@,
        }
    }
}

impl Default for Debug {
    /// All readings zero but the mix, which is one half.
    fn default() -> (r: Debug)
        ensures
            r@ == (Readings {
                current_sample_val: 0,
                max_sample_val: 0,
                min_sample_val: 0,
                sample_rate: 0,
                output_buffer: 0,
                mix: INITIAL_MIX as int,
                gain: 0,
                envelope: 0,
            }),
    {
        Debug {
            current_sample_val: Fixed::zero(),
            max_sample_val: Fixed::zero(),
            min_sample_val: Fixed::zero(),
            sample_rate: Fixed::zero(),
            output_buffer: Fixed::zero(),
            mix: Fixed::from_raw(INITIAL_MIX),
            gain: Fixed::zero(),
            envelope: Fixed::zero(),
        }
    }
}

impl Debug {
    /// Records one output sample and the values it was made with.
    pub fn update(
        &mut self,
        sample_value: Fixed,
        sample_rate: Fixed,
        mix_level: Fixed,
        gain_level: Fixed,
        envelope: Fixed,
    )
        ensures
            final(self)@ == updated(
                old(self)@,
                sample_value@,
                sample_rate@,
                mix_level@,
                gain_level@,
                envelope@,
            ),
    {
        self.current_sample_val = sample_value;
        self.sample_rate = sample_rate;
        self.mix = mix_level;
        self.gain = gain_level;
        self.envelope = envelope;
        if self.max_sample_val.lt(sample_value) {
            self.max_sample_val = sample_value;
        } else if sample_value.lt(self.min_sample_val) {
            self.min_sample_val = sample_value;
        }
    }
}

/// Readings whose minimum is no larger than their maximum keep that order,
/// and the sample just recorded lies between the two.
pub proof fn lemma_extremes_enclose(
    r: Readings,
    sample_value: int,
    sample_rate: int,
    mix_level: int,
    gain_level: int,
    envelope: int,
)
    requires
        r.min_sample_val <= r.max_sample_val,
    ensures
        ({
            let u = updated(r, sample_value, sample_rate, mix_level, gain_level, envelope);
            &&& u.min_sample_val <= sample_value <= u.max_sample_val
            &&& u.min_sample_val <= r.min_sample_val
            &&& r.max_sample_val <= u.max_sample_val
        }),
{
}

} // verus!
