//! Biquad coefficients for a low-pass or high-pass section with a
//! Butterworth response (`Q = 1/sqrt(2)`).

use vstd::prelude::*;
use crate::fixed::{clamp_between, fx_add, fx_div, fx_mul, fx_sub, quot, Fixed, SCALE};
use crate::math::{cos_turns, sin_turns, spec_cos_turns, spec_sin_turns, lemma_cos_turns_bounded, lemma_sin_turns_bounded};

verus! {

/// Raw value of `2 * Q` for `Q = 1/sqrt(2)`.
pub const TWO_Q: i64 = 1_414_213_562;

/// The response of a filter section.
#[derive(Clone, Copy, Debug, PartialEq, Eq, Structural)]
pub enum FilterType {
    Lowpass,
    Highpass,
}

/// Feedforward (`b`) and feedback (`a`) coefficients of one section.
///
/// `a0` holds the normalising divisor `1 + alpha`; the other five are already
/// divided by it.
#[derive(Clone, Copy, Debug)]
pub struct FilterCoefficients {
    pub b0: Fixed,
    pub b1: Fixed,
    pub b2: Fixed,
    pub a0: Fixed,
    pub a1: Fixed,
    pub a2: Fixed,
}

/// The raw values of a coefficient set.
pub struct Taps {
    pub b0: int,
    pub b1: int,
    pub b2: int,
    pub a0: int,
    pub a1: int,
    pub a2: int,
}

impl View for FilterCoefficients {
    type V = Taps;

    open spec fn view(&self) -> Taps {
        Taps { b0: self.b0@, b1: self.b1@, b2: self.b2@, a0: self.a0@, a1: self.a1@, a2: self.a2@ }
    }
}

/// The cutoff as a fraction of the sample rate, held strictly between zero
/// and one half (the Nyquist frequency).
pub open spec fn cutoff_turns(fc: int, sample_rate: int) -> int {
    clamp_between(fx_div(fc, sample_rate), 1, SCALE / 2 - 1)
}

/// `cos(omega)` for a cutoff at `t` turns per sample, held strictly inside
/// the open interval from minus one to one.
pub open spec fn cutoff_cos(t: int) -> int {
    clamp_between(spec_cos_turns(t), 1 - SCALE, SCALE - 1)
}

/// `alpha = sin(omega) / (2 * Q)` for a cutoff at `t` turns per sample, held
/// strictly above zero.
pub open spec fn cutoff_alpha(t: int) -> int {
    let a = fx_div(spec_sin_turns(t), TWO_Q as int);
    if a >= 1 {
        a
    } else {
        1
    }
}

/// Low-pass coefficients from `cos(omega)` and `alpha`.
pub open spec fn lowpass_taps(cos: int, alpha: int) -> Taps {
    let a0 = fx_add(SCALE as int, alpha);
    let rise = fx_sub(SCALE as int, cos);
    Taps {
        b0: fx_div(quot(rise, 2), a0),
        b1: fx_div(rise, a0),
        b2: fx_div(quot(rise, 2), a0),
        a0: a0,
        a1: fx_div(fx_mul(-2 * SCALE, cos), a0),
        a2: fx_div(fx_sub(SCALE as int, alpha), a0),
    }
}

/// High-pass coefficients from `cos(omega)` and `alpha`.
pub open spec fn highpass_taps(cos: int, alpha: int) -> Taps {
    let a0 = fx_add(SCALE as int, alpha);
    let rise = fx_add(SCALE as int, cos);
    Taps {
        b0: fx_div(quot(rise, 2), a0),
        b1: fx_div(fx_sub(0, rise), a0),
        b2: fx_div(quot(rise, 2), a0),
        a0: a0,
        a1: fx_div(fx_mul(-2 * SCALE, cos), a0),
        a2: fx_div(fx_sub(SCALE as int, alpha), a0),
    }
}

/// The coefficients of a section of the given response with its cutoff at
/// `fc` for a stream sampled at `sample_rate`.
pub open spec fn derive_taps(filter_type: FilterType, fc: int, sample_rate: int) -> Taps {
    let t = cutoff_turns(fc, sample_rate);
    match filter_type {
        FilterType::Lowpass => lowpass_taps(cutoff_cos(t), cutoff_alpha(t)),
        FilterType::Highpass => highpass_taps(cutoff_cos(t), cutoff_alpha(t)),
    }
}

/// Whether the poles of a section with these feedback coefficients lie
/// strictly inside the unit circle.
pub open spec fn stable(taps: Taps) -> bool {
    &&& -SCALE < taps.a2 < SCALE
    &&& taps.a1 < SCALE + taps.a2
    &&& -taps.a1 < SCALE + taps.a2
}

impl Default for FilterCoefficients {
    /// All coefficients zero: a section that passes nothing.
    fn default() -> (r: FilterCoefficients)
        ensures
            r@ == (Taps { b0: 0, b1: 0, b2: 0, a0: 0, a1: 0, a2: 0 }),
    {
        FilterCoefficients {
            b0: Fixed::zero(),
            b1: Fixed::zero(),
            b2: Fixed::zero(),
            a0: Fixed::zero(),
            a1: Fixed::zero(),
            a2: Fixed::zero(),
        }
    }
}

fn cutoff_trig(fc: Fixed, sample_rate: Fixed) -> (r: (Fixed, Fixed))
    ensures
        r.0@ == cutoff_cos(cutoff_turns(fc@, sample_rate@)),
        r.1@ == cutoff_alpha(cutoff_turns(fc@, sample_rate@)),
{
    let t = fc.sat_div(sample_rate).clamp(Fixed::from_raw(1), Fixed::from_raw(SCALE / 2 - 1));
    let cos = cos_turns(t).clamp(Fixed::from_raw(1 - SCALE), Fixed::from_raw(SCALE - 1));
    let alpha = sin_turns(t).sat_div(Fixed::from_raw(TWO_Q)).max(Fixed::from_raw(1));
    (cos, alpha)
}

impl FilterCoefficients {
    fn lowpass(&mut self, fc: Fixed, sample_rate: Fixed)
        ensures
            final(self)@ == derive_taps(FilterType::Lowpass, fc@, sample_rate@),
    {
        let (cos, alpha) = cutoff_trig(fc, sample_rate);
        let one = Fixed::one();
        let a0 = one.sat_add(alpha);
        let rise = one.sat_sub(cos);
        self.a0 = a0;
        self.b0 = rise.div_int(2).sat_div(a0);
        self.b1 = rise.sat_div(a0);
        self.b2 = rise.div_int(2).sat_div(a0);
        self.a1 = Fixed::from_int(-2).sat_mul(cos).sat_div(a0);
        self.a2 = one.sat_sub(alpha).sat_div(a0);
    }

    fn highpass(&mut self, fc: Fixed, sample_rate: Fixed)
        ensures
            final(self)@ == derive_taps(FilterType::Highpass, fc@, sample_rate@),
    {
        let (cos, alpha) = cutoff_trig(fc, sample_rate);
        let one = Fixed::one();
        let a0 = one.sat_add(alpha);
        let rise = one.sat_add(cos);
        self.a0 = a0;
        self.b0 = rise.div_int(2).sat_div(a0);
        self.b1 = Fixed::zero().sat_sub(rise).sat_div(a0);
        self.b2 = rise.div_int(2).sat_div(a0);
        self.a1 = Fixed::from_int(-2).sat_mul(cos).sat_div(a0);
        self.a2 = one.sat_sub(alpha).sat_div(a0);
    }

    /// Replaces all six coefficients by those of a section of the given
    /// response with its cutoff at `fc`, for a stream sampled at
    /// `sample_rate`. A cutoff outside the open interval from zero to half the
    /// sample rate is moved to the nearest frequency inside it.
    pub fn update(&mut self, fc: Fixed, sample_rate: Fixed, filter_type: FilterType)
        ensures
            final(self)@ == derive_taps(filter_type, fc@, sample_rate@),
            stable(final(self)@),
    {
        proof {
            lemma_derive_stable(filter_type, fc@, sample_rate@);
        }
        match filter_type {
            FilterType::Lowpass => self.lowpass(fc, sample_rate),
            FilterType::Highpass => self.highpass(fc, sample_rate),
        }
    }
}

/// Feedback coefficients derived from a cosine strictly between minus one
/// and one and a positive `alpha` of at most one put the poles inside the
/// unit circle.
pub proof fn lemma_feedback_stable(cos: int, alpha: int)
    requires
        -SCALE < cos < SCALE,
        0 < alpha <= SCALE,
    ensures
        ({
            let a0 = fx_add(SCALE as int, alpha);
            let a1 = fx_div(fx_mul(-2 * SCALE, cos), a0);
            let a2 = fx_div(fx_sub(SCALE as int, alpha), a0);
            &&& SCALE < a0 <= 2 * SCALE
            &&& 0 <= a2 < SCALE
            &&& a1 < SCALE + a2
            &&& -a1 < SCALE + a2
        }),
{
    let s = SCALE as int;
    let d = s + alpha;
    let c = if cos < 0 { -cos } else { cos };
    let n1 = 2 * c * s;
    let p = (-2 * s) * cos;
    assert(p == (if cos < 0 { n1 } else { -n1 }) && n1 >= 0 && n1 / s == 2 * c) by (nonlinear_arith)
        requires
            p == (-2 * s) * cos,
            n1 == 2 * c * s,
            c == (if cos < 0 { -cos } else { cos }),
            s == 1_000_000_000,
    ;
    let m = fx_mul(-2 * s, cos);
    assert(m == -2 * cos);
    let n2 = (s - alpha) * s;
    let total = 2 * s * s;
    assert(n2 + s * d == total && 0 <= n2 && n1 + d <= total && 0 <= n1 && n2 < s * d)
        by (nonlinear_arith)
        requires
            n2 == (s - alpha) * s,
            n1 == 2 * c * s,
            total == 2 * s * s,
            d == s + alpha,
            0 < alpha <= s,
            0 <= c < s,
            s == 1_000_000_000,
    ;
    assert(n2 / d < s && 0 <= n2 / d && n1 / d < s + n2 / d && 0 <= n1 / d) by (nonlinear_arith)
        requires
            n2 + s * d == total,
            0 <= n2,
            n1 + d <= total,
            0 <= n1,
            n2 < s * d,
            d > 0,
            s > 0,
    ;
    let a2 = fx_div(fx_sub(s, alpha), d);
    assert(a2 == n2 / d);
    let a1 = fx_div(m, d);
    assert(m * s == (if cos < 0 { n1 } else { -n1 })) by (nonlinear_arith)
        requires
            m == -2 * cos,
            n1 == 2 * c * s,
            c == (if cos < 0 { -cos } else { cos }),
    ;
    assert(a1 == if cos < 0 { n1 / d } else { -(n1 / d) });
}

/// Every derived coefficient set is stable, whatever the cutoff and the
/// sample rate.
pub proof fn lemma_derive_stable(filter_type: FilterType, fc: int, sample_rate: int)
    ensures
        stable(derive_taps(filter_type, fc, sample_rate)),
        SCALE < derive_taps(filter_type, fc, sample_rate).a0 <= 2 * SCALE,
{
    let t = cutoff_turns(fc, sample_rate);
    lemma_cos_turns_bounded(t);
    lemma_sin_turns_bounded(t);
    let sin = spec_sin_turns(t);
    assert(cutoff_alpha(t) <= SCALE) by {
        if sin > 0 {
            assert((sin * SCALE) / (TWO_Q as int) <= SCALE) by (nonlinear_arith)
                requires
                    0 < sin <= SCALE,
                    SCALE == 1_000_000_000,
                    TWO_Q == 1_414_213_562,
            ;
        }
    }
    lemma_feedback_stable(cutoff_cos(t), cutoff_alpha(t));
}

} // verus!
