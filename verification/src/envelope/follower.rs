//! An envelope follower with separate attack and release smoothing.

use vstd::prelude::*;
use vstd::arithmetic::div_mod::lemma_fundamental_div_mod_converse;
use crate::fixed::{
    fx_abs, fx_add, fx_div, fx_mul, fx_sub, lemma_product_with_one, lemma_product_with_zero, Fixed,
    SCALE,
};
use crate::math::{exp_neg, exp_series, lemma_exp_series_between, spec_exp_neg};

verus! {

/// Attack time in milliseconds.
pub const ATTACK_MS: u32 = 10;

/// Release time in milliseconds.
pub const RELEASE_MS: u32 = 100;

/// How the noise level relates to the dry signal.
#[derive(Clone, Copy, Debug, PartialEq, Eq, Structural)]
pub enum EnvelopeMode {
    /// The noise plays at its set level whatever the input does.
    Continuous,
    /// The noise level follows the amplitude of the input.
    Follow,
}

/// The raw values of a follower: the envelope and its two smoothing
/// coefficients.
pub struct Envelope {
    pub value: int,
    pub attack: int,
    pub release: int,
}

/// The smoothing coefficient `exp(-1 / (sample_rate * time))` for a time
/// constant of `millis` milliseconds.
pub open spec fn coefficient(sample_rate: int, millis: int) -> int {
    spec_exp_neg(fx_div(SCALE as int, fx_mul(sample_rate, millis * (SCALE / 1000))))
}

/// One-pole smoothing of `value` toward `target`:
/// `value * coeff + target * (1 - coeff)`.
pub open spec fn smooth(value: int, target: int, coeff: int) -> int {
    fx_add(fx_mul(value, coeff), fx_mul(target, fx_sub(SCALE as int, coeff)))
}

/// The follower after the input `x`: the envelope moves toward `|x|` with
/// the attack coefficient while it is below `|x|`, and with the release
/// coefficient otherwise.
pub open spec fn follow(e: Envelope, x: int) -> Envelope {
    let target = fx_abs(x);
    let coeff = if e.value < target { e.attack } else { e.release };
    Envelope { value: smooth(e.value, target, coeff), attack: e.attack, release: e.release }
}

/// The follower a stream sampled at `sample_rate` starts with.
pub open spec fn fresh_envelope(sample_rate: int) -> Envelope {
    Envelope {
        value: 0,
        attack: coefficient(sample_rate, ATTACK_MS as int),
        release: coefficient(sample_rate, RELEASE_MS as int),
    }
}

/// Tracks the amplitude of a signal.
#[derive(Clone, Copy, Debug)]
pub struct EnvelopeFollower {
    envelope_value: Fixed,
    attack_coefficient: Fixed,
    release_coefficient: Fixed,
}

impl View for EnvelopeFollower {
    type V = Envelope;

    closed spec fn view(&self) -> Envelope {
        Envelope {
            value: self.envelope_value@,
            attack: self.attack_coefficient@,
            release: self.release_coefficient@,
        }
    }
}

impl EnvelopeFollower {
    /// A follower at zero with a 10 ms attack and a 100 ms release for a
    /// stream sampled at `sample_rate`.
    pub fn new(sample_rate: Fixed) -> (r: EnvelopeFollower)
        ensures
            r@ == fresh_envelope(sample_rate@),
            0 <= r@.attack <= SCALE,
            0 <= r@.release <= SCALE,
    {
        EnvelopeFollower {
            envelope_value: Fixed::zero(),
            attack_coefficient: Self::calculate_coefficient(sample_rate, ATTACK_MS),
            release_coefficient: Self::calculate_coefficient(sample_rate, RELEASE_MS),
        }
    }

    /// The smoothing coefficient for a time constant of `millis`
    /// milliseconds at the given sample rate. It lies between zero and one.
    pub fn calculate_coefficient(sample_rate: Fixed, millis: u32) -> (r: Fixed)
        ensures
            r@ == coefficient(sample_rate@, millis as int),
            0 <= r@ <= SCALE,
    {
        let time = Fixed::from_raw((millis as i64) * 1_000_000);
        let x = Fixed::one().sat_div(sample_rate.sat_mul(time));
        exp_neg(x)
    }

    /// Recomputes both coefficients for a new sample rate and keeps the
    /// envelope.
    pub fn set_sample_rate(&mut self, sample_rate: Fixed)
        ensures
            final(self)@ == (Envelope {
                value: old(self)@.value,
                ..fresh_envelope(sample_rate@)
            }),
    {
        self.attack_coefficient = Self::calculate_coefficient(sample_rate, ATTACK_MS);
        self.release_coefficient = Self::calculate_coefficient(sample_rate, RELEASE_MS);
    }

    /// Advances the envelope by one input sample and returns it.
    pub fn process(&mut self, sample: Fixed) -> (r: Fixed)
        ensures
            final(self)@ == follow(old(self)@, sample@),
            r@ == final(self)@.value,
    {
        let sample_abs = sample.abs();
        let env_coefficient = if self.envelope_value.lt(sample_abs) {
            self.attack_coefficient
        } else {
            self.release_coefficient
        };
        self.envelope_value = self.envelope_value.sat_mul(env_coefficient).sat_add(
            sample_abs.sat_mul(Fixed::one().sat_sub(env_coefficient)),
        );
        self.envelope_value
    }

    /// Returns the envelope to zero and keeps the coefficients.
    pub fn reset(&mut self)
        ensures
            final(self)@ == (Envelope { value: 0, ..old(self)@ }),
    {
        self.envelope_value = Fixed::zero();
    }
}

/// Smoothing never overshoots: with a coefficient between zero and one the
/// smoothed value lies between the old value and the target, up to one raw
/// unit of rounding toward zero.
pub proof fn lemma_smooth_between(value: int, target: int, coeff: int)
    requires
        0 <= value <= i64::MAX,
        0 <= target <= i64::MAX,
        0 <= coeff <= SCALE,
    ensures
        value <= target ==> value - 1 <= smooth(value, target, coeff) <= target,
        target <= value ==> target - 1 <= smooth(value, target, coeff) <= value,
{
    let s = SCALE as int;
    let p = value * coeff;
    let q = target * (s - coeff);
    assert(0 <= p && 0 <= q && p + q <= (if value <= target { target } else { value }) * s && p
        + q >= (if value <= target { value } else { target }) * s) by (nonlinear_arith)
        requires
            p == value * coeff,
            q == target * (s - coeff),
            0 <= value,
            0 <= target,
            0 <= coeff <= s,
    ;
    let hi = if value <= target { target } else { value };
    let lo = if value <= target { value } else { target };
    assert(p / s + q / s <= hi && p / s + q / s >= lo - 1 && 0 <= p / s && 0 <= q / s)
        by (nonlinear_arith)
        requires
            0 <= p,
            0 <= q,
            p + q <= hi * s,
            p + q >= lo * s,
            s == 1_000_000_000,
    ;
}

/// The envelope of a follower whose coefficients lie between zero and one
/// moves toward the magnitude of the input and never past it.
pub proof fn lemma_follow_toward_input(e: Envelope, x: int)
    requires
        0 <= e.value <= i64::MAX,
        0 <= e.attack <= SCALE,
        0 <= e.release <= SCALE,
        i64::MIN <= x <= i64::MAX,
    ensures
        e.value < fx_abs(x) ==> e.value - 1 <= follow(e, x).value <= fx_abs(x),
        e.value >= fx_abs(x) ==> fx_abs(x) - 1 <= follow(e, x).value <= e.value,
        0 <= follow(e, x).value <= i64::MAX,
{
    let coeff = if e.value < fx_abs(x) { e.attack } else { e.release };
    lemma_smooth_between(e.value, fx_abs(x), coeff);
    lemma_smooth_nonnegative(e.value, fx_abs(x), coeff);
}

/// A smoothed value of non-negative arguments is non-negative.
pub proof fn lemma_smooth_nonnegative(value: int, target: int, coeff: int)
    requires
        0 <= value,
        0 <= target,
        0 <= coeff <= SCALE,
    ensures
        0 <= smooth(value, target, coeff) <= i64::MAX,
{
    let s = SCALE as int;
    assert(0 <= value * coeff && 0 <= target * (s - coeff)) by (nonlinear_arith)
        requires
            0 <= value,
            0 <= target,
            0 <= coeff <= s,
    ;
}

/// Raw value of `1 - 1/e`, the share of a step that a one-pole smoother has
/// covered after one time constant.
pub const COVERED: i64 = 632_120_559;

/// Raw value of `1/e`, the share of a step that is left after one time
/// constant.
pub const LEFT: i64 = 367_879_441;

/// The follower after the input `x` has come `n` times in a row.
pub open spec fn followed(e: Envelope, x: int, n: nat) -> Envelope
    decreases n,
{
    if n == 0 {
        e
    } else {
        follow(followed(e, x, (n - 1) as nat), x)
    }
}

/// The envelope `n` samples after the input has stepped from silence to
/// one, for a follower that was at zero.
pub open spec fn risen(attack: int, release: int, n: nat) -> int {
    followed(Envelope { value: 0, attack, release }, SCALE as int, n).value
}

/// The envelope `n` samples after the input has stepped from one to
/// silence, for a follower that was at one.
pub open spec fn fallen(attack: int, release: int, n: nat) -> int {
    followed(Envelope { value: SCALE as int, attack, release }, 0, n).value
}

/// `p / SCALE`, rounded up.
pub open spec fn scaled_up(p: int) -> int {
    (p + SCALE - 1) / (SCALE as int)
}

/// One sample of a full-scale input takes the attack's share off what the
/// envelope still lacks to one, rounded up; an envelope at one stays there.
pub proof fn lemma_rise_step(e: Envelope)
    requires
        0 <= e.value <= SCALE,
        0 <= e.attack <= SCALE,
        0 <= e.release <= SCALE,
    ensures
        SCALE - follow(e, SCALE as int).value == scaled_up((SCALE - e.value) * e.attack),
        0 <= follow(e, SCALE as int).value <= SCALE,
        follow(e, SCALE as int).attack == e.attack,
        follow(e, SCALE as int).release == e.release,
{
    let s = SCALE as int;
    let v = e.value;
    if v < s {
        let ca = e.attack;
        let d = s - v;
        let p = d * ca;
        let q = scaled_up(p);
        lemma_product_with_one(s - ca);
        assert(0 <= p <= s * ca && v * ca == s * ca - p && 0 <= v * ca) by (nonlinear_arith)
            requires
                p == d * ca,
                d == s - v,
                0 <= v < s,
                0 <= ca <= s,
        ;
        assert(0 <= q && q * s >= p && q * s - p < s) by (nonlinear_arith)
            requires
                q == (p + s - 1) / s,
                0 <= p,
                s == 1_000_000_000,
        ;
        assert(q <= ca) by (nonlinear_arith)
            requires
                q * s - p < s,
                p <= s * ca,
                s > 0,
        ;
        lemma_fundamental_div_mod_converse(v * ca, s, ca - q, q * s - p);
        assert((v * ca) / s == ca - q);
    } else {
        let cr = e.release;
        lemma_product_with_one(cr);
        lemma_product_with_one(s - cr);
        assert((s - v) * e.attack == 0) by (nonlinear_arith)
            requires
                s - v == 0,
        ;
    }
}

/// One sample of silence leaves the release's share of the envelope,
/// rounded down.
pub proof fn lemma_fall_step(e: Envelope)
    requires
        0 <= e.value <= SCALE,
        0 <= e.attack <= SCALE,
        0 <= e.release <= SCALE,
    ensures
        follow(e, 0).value == (e.value * e.release) / (SCALE as int),
        0 <= follow(e, 0).value <= e.value,
        follow(e, 0).attack == e.attack,
        follow(e, 0).release == e.release,
{
    let s = SCALE as int;
    let p = e.value * e.release;
    lemma_product_with_zero(fx_sub(s, e.release));
    assert(0 <= p <= e.value * s) by (nonlinear_arith)
        requires
            p == e.value * e.release,
            0 <= e.value,
            0 <= e.release <= s,
    ;
    assert(0 <= p / s <= e.value) by (nonlinear_arith)
        requires
            0 <= p <= e.value * s,
            s == 1_000_000_000,
    ;
}

/// After a step up the envelope stays between zero and one.
pub proof fn lemma_risen_in_range(attack: int, release: int, n: nat)
    requires
        0 <= attack <= SCALE,
        0 <= release <= SCALE,
    ensures
        0 <= risen(attack, release, n) <= SCALE,
        followed(Envelope { value: 0, attack, release }, SCALE as int, n).attack == attack,
        followed(Envelope { value: 0, attack, release }, SCALE as int, n).release == release,
    decreases n,
{
    if n > 0 {
        lemma_risen_in_range(attack, release, (n - 1) as nat);
        lemma_rise_step(followed(Envelope { value: 0, attack, release }, SCALE as int, (n - 1) as nat));
    }
}

/// After a step down the envelope never rises, and stays between zero and
/// one.
pub proof fn lemma_fallen_descends(attack: int, release: int, n: nat)
    requires
        0 <= attack <= SCALE,
        0 <= release <= SCALE,
    ensures
        0 <= fallen(attack, release, n + 1) <= fallen(attack, release, n) <= SCALE,
        followed(Envelope { value: SCALE as int, attack, release }, 0, n).attack == attack,
        followed(Envelope { value: SCALE as int, attack, release }, 0, n).release == release,
    decreases n,
{
    if n > 0 {
        lemma_fallen_descends(attack, release, (n - 1) as nat);
    }
    lemma_fall_step(followed(Envelope { value: SCALE as int, attack, release }, 0, n));
}

/// The attack outruns the release. For an attack coefficient of at most the
/// square of the release coefficient, what the envelope lacks to one `n`
/// samples after a step up is at most what is left of it `n + 1` samples
/// after a step down, as long as the falling envelope is large enough for
/// the difference of the coefficients to take a raw unit off it.
pub proof fn lemma_attack_outruns_release(attack: int, release: int, n: nat)
    requires
        0 <= attack <= SCALE,
        0 <= release <= SCALE,
        attack * SCALE <= release * release,
        n >= 1,
        fallen(attack, release, n) * (release - attack) >= SCALE,
    ensures
        SCALE - risen(attack, release, n) <= fallen(attack, release, n + 1),
    decreases n,
{
    let s = SCALE as int;
    let up = Envelope { value: 0, attack, release };
    let down = Envelope { value: s, attack, release };
    assert(attack <= release) by (nonlinear_arith)
        requires
            attack * s <= release * release,
            0 <= release <= s,
            0 <= attack,
            s > 0,
    ;
    if n == 1 {
        assert(followed(up, s, 1) == follow(followed(up, s, 0), s));
        lemma_rise_step(up);
        assert((s - 0) * attack == s * attack);
        assert((s * attack + s - 1) / s == attack) by (nonlinear_arith)
            requires
                s == 1_000_000_000,
        ;
        assert(scaled_up(s * attack) == attack);
        assert(followed(down, 0, 1) == follow(followed(down, 0, 0), 0));
        assert(followed(down, 0, 2) == follow(followed(down, 0, 1), 0));
        lemma_fall_step(down);
        lemma_fall_step(followed(down, 0, 1));
        assert((s * release) / s == release) by (nonlinear_arith)
            requires
                s == 1_000_000_000,
        ;
        assert(attack <= (release * release) / s) by (nonlinear_arith)
            requires
                attack * s <= release * release,
                s > 0,
        ;
    } else {
        let m = (n - 1) as nat;
        lemma_fallen_descends(attack, release, m);
        lemma_fallen_descends(attack, release, n);
        lemma_risen_in_range(attack, release, m);
        let r_prev = fallen(attack, release, m);
        let r = fallen(attack, release, n);
        assert(r_prev * (release - attack) >= s) by (nonlinear_arith)
            requires
                r * (release - attack) >= s,
                r_prev >= r,
                release - attack >= 0,
        ;
        lemma_attack_outruns_release(attack, release, m);
        let a = s - risen(attack, release, m);
        assert(a <= r);
        lemma_rise_step(followed(up, s, m));
        lemma_fall_step(followed(down, 0, n));
        let x = a * attack;
        let y = r * release;
        assert(0 <= x && x + s <= y) by (nonlinear_arith)
            requires
                x == a * attack,
                y == r * release,
                0 <= a <= r,
                0 <= attack <= release,
                r * (release - attack) >= s,
        ;
        assert((x + s - 1) / s <= y / s) by (nonlinear_arith)
            requires
                0 <= x,
                x + s <= y,
                s == 1_000_000_000,
        ;
    }
}

/// The attack's time to 63% of a step is shorter than the release's time to
/// 37% of it. If the envelope has fallen to `1/e` of a full step `n + 1`
/// samples after the step down and not before, it had covered `1 - 1/e` of
/// the step `n` samples after the step up, a sample earlier at the least.
pub proof fn lemma_attack_time_is_shorter(attack: int, release: int, n: nat)
    requires
        0 <= attack <= SCALE,
        0 <= release <= SCALE,
        attack * SCALE <= release * release,
        release - attack >= 3,
        n >= 1,
        fallen(attack, release, n) > LEFT,
        fallen(attack, release, n + 1) <= LEFT,
    ensures
        risen(attack, release, n) >= COVERED,
{
    let r = fallen(attack, release, n);
    assert(r * (release - attack) >= SCALE) by (nonlinear_arith)
        requires
            r > 367_879_441,
            release - attack >= 3,
            SCALE == 1_000_000_000,
    ;
    lemma_attack_outruns_release(attack, release, n);
}

/// For sample rates from 1 kHz to 1 MHz the coefficients of a new follower
/// are in order: the attack coefficient lies above zero and below the
/// release coefficient, and that below one. The attack coefficient is even
/// at most the square of the release coefficient.
pub proof fn lemma_coefficients_ordered(sample_rate: int)
    requires
        1_000 * SCALE <= sample_rate <= 1_000_000 * SCALE,
    ensures
        ({
            let e = fresh_envelope(sample_rate);
            &&& 0 < e.attack < e.release < SCALE
            &&& e.release - e.attack >= 3
            &&& e.attack * SCALE <= e.release * e.release
        }),
{
    let s = SCALE as int;
    let sr = sample_rate;
    // the time constants in samples
    let da = fx_mul(sr, ATTACK_MS * (s / 1000));
    let dr = fx_mul(sr, RELEASE_MS * (s / 1000));
    let ta = sr * 10_000_000;
    let tr = sr * 100_000_000;
    assert(sr * (ATTACK_MS * (s / 1000)) == ta);
    assert(sr * (RELEASE_MS * (s / 1000)) == tr);
    assert(tr == 10 * ta);
    assert(10_000_000_000 <= ta / 1_000_000_000 <= 10_000_000_000_000 && 100_000_000_000 <= tr
        / 1_000_000_000 <= 100_000_000_000_000 && tr / 1_000_000_000 >= 10 * (ta / 1_000_000_000))
        by (nonlinear_arith)
        requires
            ta == sr * 10_000_000,
            tr == 10 * ta,
            1_000_000_000_000 <= sr <= 1_000_000_000_000_000,
    ;
    assert(da == ta / s);
    assert(dr == tr / s);
    // their reciprocals
    let xa = fx_div(s, da);
    let xr = fx_div(s, dr);
    let big = s * s;
    assert(big == 1_000_000_000_000_000_000);
    assert(0 <= big / da <= 100_000_000 && big / da >= 100_000 && (big / da) * da <= big && big < (
    big / da) * da + da) by (nonlinear_arith)
        requires
            big == 1_000_000_000_000_000_000,
            10_000_000_000 <= da <= 10_000_000_000_000,
    ;
    assert(0 <= big / dr && (big / dr) * dr <= big && big / dr >= 10_000) by (nonlinear_arith)
        requires
            big == 1_000_000_000_000_000_000,
            100_000_000_000 <= dr <= 100_000_000_000_000,
    ;
    assert(xa == big / da);
    assert(xr == big / dr);
    assert(10 * xr <= xa) by (nonlinear_arith)
        requires
            xr * dr <= big,
            big < xa * da + da,
            dr >= 10 * da,
            da > 0,
            xr >= 0,
            xa >= 0,
    ;
    // the coefficients
    let attack = coefficient(sr, ATTACK_MS as int);
    let release = coefficient(sr, RELEASE_MS as int);
    assert(attack == exp_series(xa));
    assert(release == exp_series(xr));
    lemma_exp_series_between(xa);
    lemma_exp_series_between(xr);
    assert(release * release >= (s - xr) * (s - xr)) by (nonlinear_arith)
        requires
            release >= s - xr,
            s - xr >= 0,
    ;
    assert(2 * (attack * s) + 2 * 3 * s <= 2 * ((s - xr) * (s - xr)) && 2 * s * release < 2 * s * s
        && 2 * s * (release - attack) >= 2 * s * 3) by (nonlinear_arith)
        requires
            2 * s * attack <= 2 * s * s - 2 * s * xa + xa * xa + 2 * s,
            2 * s * release <= 2 * s * s - 2 * s * xr + xr * xr + 2 * s,
            release >= s - xr,
            10 * xr <= xa,
            100_000 <= xa <= 100_000_000,
            10_000 <= xr,
            s == 1_000_000_000,
    ;
    assert(release < s && release - attack >= 3) by (nonlinear_arith)
        requires
            2 * s * release < 2 * s * s,
            2 * s * (release - attack) >= 2 * s * 3,
            s > 0,
    ;
}

/// The step response of a new follower for a sample rate from 1 kHz to
/// 1 MHz: the attack's time to 63% of a step is shorter than the release's
/// time to 37% of it. If the envelope has fallen to `1/e` of a full step
/// `n + 1` samples after the step down and not before, it had covered
/// `1 - 1/e` of the step `n` samples after the step up.
pub proof fn lemma_step_response(sample_rate: int, n: nat)
    requires
        1_000 * SCALE <= sample_rate <= 1_000_000 * SCALE,
        n >= 1,
        fallen(fresh_envelope(sample_rate).attack, fresh_envelope(sample_rate).release, n) > LEFT,
        fallen(fresh_envelope(sample_rate).attack, fresh_envelope(sample_rate).release, n + 1)
            <= LEFT,
    ensures
        risen(fresh_envelope(sample_rate).attack, fresh_envelope(sample_rate).release, n)
            >= COVERED,
{
    lemma_coefficients_ordered(sample_rate);
    let e = fresh_envelope(sample_rate);
    lemma_attack_time_is_shorter(e.attack, e.release, n);
}

} // verus!
