//! Noise generators and the engine that mixes their output with the dry
//! signal.

use vstd::prelude::*;
use rand::distributions::{Distribution, Uniform};
use rand::rngs::StdRng;
use crate::buffer::{column, grid_samples, Buffer};
use crate::envelope::follower::{follow, fresh_envelope, Envelope, EnvelopeFollower, EnvelopeMode};
use crate::filters::biquad::{section_next, section_out, Biquad, Registers, Section};
use crate::filters::coefficients::{derive_taps, stable, FilterType, Taps};
use crate::fixed::{
    clamp_between, fx_add, fx_mul, fx_sub, lemma_product_magnitude, lemma_product_with_one,
    lemma_product_with_zero, mag, Fixed, SCALE,
};
use crate::params::{Controls, NoiseParams, NoiseType};

verus! {

/// `rand::rngs::StdRng`, the random number generator that the engine draws
/// from. Nothing is known of its state.
#[verifier::external_type_specification]
#[verifier::external_body]
pub struct ExStdRng(rand::rngs::StdRng);

/// Draws an integer with `rand::distributions::Uniform::new(low, high)` and
/// `Distribution::sample`. `Uniform::new` asks for `low < high`, and a sample
/// of it lies in the half-open range from `low` to `high`. Which value comes
/// depends on the generator's state, of which nothing is claimed.
#[verifier::external_body]
fn uniform_draw(rng: &mut StdRng, low: i64, high: i64) -> (r: i64)
    requires
        low < high,
    ensures
        low <= r < high,
{
    Uniform::<i64>::new(low, high).sample(rng)
}

/// Whether `w` is a white sample: between minus one and one.
pub open spec fn is_white(w: int) -> bool {
    -SCALE <= w <= SCALE
}

/// A source of noise that turns one white sample into one output sample.
pub trait NoiseConfig: View + Sized {
    /// The state that a generator in the state `state` returns to when
    /// reset: what it was made with stays, what it has gathered goes.
    spec fn after_reset(state: Self::V) -> Self::V;

    /// The state after the white sample `w` and the sample put out for it.
    spec fn step(state: Self::V, w: int) -> (Self::V, int);

    /// Returns the generator to its initial state.
    fn reset(&mut self)
        ensures
            final(self)@ == Self::after_reset(old(self)@),
    ;

    /// Puts out the sample for the white sample `white` and advances.
    fn advance(&mut self, white: Fixed) -> (r: Fixed)
        ensures
            (final(self)@, r@) == Self::step(old(self)@, white@),
    ;

    /// Draws a white sample from `rng`, puts out the sample for it and
    /// advances.
    fn next(&mut self, rng: &mut StdRng) -> (r: Fixed)
        ensures
            exists|w: int| is_white(w) && #[trigger] Self::step(old(self)@, w) == (final(self)@, r@),
    ;

    /// Draws a white sample from `rng`: uniform over the range from minus
    /// one up to, but not including, one.
    fn white(&mut self, rng: &mut StdRng) -> (r: Fixed)
        ensures
            -SCALE <= r@ < SCALE,
            final(self)@ == old(self)@,
    {
        Fixed::from_raw(uniform_draw(rng, -SCALE, SCALE))
    }
}

/// White noise: the white sample itself.
#[derive(Clone, Copy, Debug)]
pub struct White {}

impl View for White {
    type V = ();

    open spec fn view(&self) -> () {
        ()
    }
}

impl White {
    /// A white-noise generator.
    pub fn new() -> (r: White)
        ensures
            r@ == (),
    {
        White {  }
    }
}

impl NoiseConfig for White {
    open spec fn after_reset(state: ()) -> () {
        ()
    }

    open spec fn step(state: (), w: int) -> ((), int) {
        ((), w)
    }

    fn reset(&mut self) {
    }

    fn advance(&mut self, white: Fixed) -> (r: Fixed) {
        white
    }

    fn next(&mut self, rng: &mut StdRng) -> (r: Fixed)
        ensures
            -SCALE <= r@ < SCALE,
    {
        let w = self.white(rng);
        assert(Self::step(old(self)@, w@) == (self@, w@));
        w
    }
}

/// Decay of the six leaky integrators of the pink filter bank.
pub const PINK_DECAY_0: i64 = 998_860_000;
pub const PINK_DECAY_1: i64 = 993_320_000;
pub const PINK_DECAY_2: i64 = 969_000_000;
pub const PINK_DECAY_3: i64 = 866_500_000;
pub const PINK_DECAY_4: i64 = 550_000_000;
pub const PINK_DECAY_5: i64 = -761_600_000;

/// Weight of the white sample in each of the six integrators; the last is
/// subtracted.
pub const PINK_WEIGHT_0: i64 = 55_517_900;
pub const PINK_WEIGHT_1: i64 = 75_075_900;
pub const PINK_WEIGHT_2: i64 = 153_852_000;
pub const PINK_WEIGHT_3: i64 = 310_485_600;
pub const PINK_WEIGHT_4: i64 = 532_952_200;
pub const PINK_WEIGHT_5: i64 = 16_898_000;

/// Weight of the white sample in the seventh, delayed tap.
pub const PINK_WEIGHT_6: i64 = 115_926_000;

/// Weight of the white sample in the output sum.
pub const PINK_DIRECT: i64 = 536_200_000;

/// Attenuation of the pink output sum.
pub const PINK_GAIN: i64 = 110_000_000;

/// Leak of the brown integrator that the engine is made with.
pub const BROWN_LEAK: i64 = 990_000_000;

/// Attenuation of the white sample that violet noise is the difference of.
pub const VIOLET_GAIN: i64 = 100_000_000;

/// The raw values of the seven taps of the pink filter bank.
pub struct PinkTaps {
    pub b0: int,
    pub b1: int,
    pub b2: int,
    pub b3: int,
    pub b4: int,
    pub b5: int,
    pub b6: int,
}

/// The pink taps of a new generator: all zero.
pub open spec fn silent_taps() -> PinkTaps {
    PinkTaps { b0: 0, b1: 0, b2: 0, b3: 0, b4: 0, b5: 0, b6: 0 }
}

/// One leaky integrator: `decay * tap + w * weight`.
pub open spec fn leaky(decay: int, tap: int, w: int, weight: int) -> int {
    fx_add(fx_mul(decay, tap), fx_mul(w, weight))
}

/// The pink taps after the white sample `w`.
pub open spec fn pink_taps(t: PinkTaps, w: int) -> PinkTaps {
    PinkTaps {
        b0: leaky(PINK_DECAY_0 as int, t.b0, w, PINK_WEIGHT_0 as int),
        b1: leaky(PINK_DECAY_1 as int, t.b1, w, PINK_WEIGHT_1 as int),
        b2: leaky(PINK_DECAY_2 as int, t.b2, w, PINK_WEIGHT_2 as int),
        b3: leaky(PINK_DECAY_3 as int, t.b3, w, PINK_WEIGHT_3 as int),
        b4: leaky(PINK_DECAY_4 as int, t.b4, w, PINK_WEIGHT_4 as int),
        b5: fx_sub(fx_mul(PINK_DECAY_5 as int, t.b5), fx_mul(w, PINK_WEIGHT_5 as int)),
        b6: fx_mul(w, PINK_WEIGHT_6 as int),
    }
}

/// The pink sample for the white sample `w`: the six advanced integrators,
/// the delayed tap as it was, and the white sample itself, summed in that
/// order and attenuated.
pub open spec fn pink_out(t: PinkTaps, w: int) -> int {
    let n = pink_taps(t, w);
    let sum = fx_add(
        fx_add(fx_add(fx_add(fx_add(fx_add(fx_add(n.b0, n.b1), n.b2), n.b3), n.b4), n.b5), t.b6),
        fx_mul(w, PINK_DIRECT as int),
    );
    fx_mul(sum, PINK_GAIN as int)
}

/// Pink noise by Paul Kellet's filter bank.
#[derive(Clone, Copy, Debug)]
pub struct Pink {
    b0: Fixed,
    b1: Fixed,
    b2: Fixed,
    b3: Fixed,
    b4: Fixed,
    b5: Fixed,
    b6: Fixed,
}

impl View for Pink {
    type V = PinkTaps;

    closed spec fn view(&self) -> PinkTaps {
        PinkTaps {
            b0: self.b0@,
            b1: self.b1@,
            b2: self.b2@,
            b3: self.b3@,
            b4: self.b4@,
            b5: self.b5@,
            b6: self.b6@,
        }
    }
}

impl Pink {
    /// A pink-noise generator with all taps at zero.
    pub fn new() -> (r: Pink)
        ensures
            r@ == silent_taps(),
    {
        Pink {
            b0: Fixed::zero(),
            b1: Fixed::zero(),
            b2: Fixed::zero(),
            b3: Fixed::zero(),
            b4: Fixed::zero(),
            b5: Fixed::zero(),
            b6: Fixed::zero(),
        }
    }
}

impl NoiseConfig for Pink {
    open spec fn after_reset(state: PinkTaps) -> PinkTaps {
        silent_taps()
    }

    open spec fn step(state: PinkTaps, w: int) -> (PinkTaps, int) {
        (pink_taps(state, w), pink_out(state, w))
    }

    fn reset(&mut self) {
        *self = Pink::new();
    }

    fn advance(&mut self, white: Fixed) -> (r: Fixed) {
        self.b0 = Fixed::from_raw(PINK_DECAY_0).sat_mul(self.b0).sat_add(
            white.sat_mul(Fixed::from_raw(PINK_WEIGHT_0)),
        );
        self.b1 = Fixed::from_raw(PINK_DECAY_1).sat_mul(self.b1).sat_add(
            white.sat_mul(Fixed::from_raw(PINK_WEIGHT_1)),
        );
        self.b2 = Fixed::from_raw(PINK_DECAY_2).sat_mul(self.b2).sat_add(
            white.sat_mul(Fixed::from_raw(PINK_WEIGHT_2)),
        );
        self.b3 = Fixed::from_raw(PINK_DECAY_3).sat_mul(self.b3).sat_add(
            white.sat_mul(Fixed::from_raw(PINK_WEIGHT_3)),
        );
        self.b4 = Fixed::from_raw(PINK_DECAY_4).sat_mul(self.b4).sat_add(
            white.sat_mul(Fixed::from_raw(PINK_WEIGHT_4)),
        );
        self.b5 = Fixed::from_raw(PINK_DECAY_5).sat_mul(self.b5).sat_sub(
            white.sat_mul(Fixed::from_raw(PINK_WEIGHT_5)),
        );
        let sum = self.b0.sat_add(self.b1).sat_add(self.b2).sat_add(self.b3).sat_add(
            self.b4,
        ).sat_add(self.b5).sat_add(self.b6).sat_add(white.sat_mul(Fixed::from_raw(PINK_DIRECT)));
        let out = sum.sat_mul(Fixed::from_raw(PINK_GAIN));
        self.b6 = white.sat_mul(Fixed::from_raw(PINK_WEIGHT_6));
        out
    }

    fn next(&mut self, rng: &mut StdRng) -> (r: Fixed) {
        let w = self.white(rng);
        self.advance(w)
    }
}

/// The raw values of a brown generator: the last sample and the leak.
pub struct BrownState {
    pub current: int,
    pub leak: int,
}

/// The brown sample after `current` for the white sample `w`:
/// `leak * current + (1 - leak) * w`.
pub open spec fn brown_sample(leak: int, current: int, w: int) -> int {
    fx_add(fx_mul(leak, current), fx_mul(fx_sub(SCALE as int, leak), w))
}

/// Brown noise: a leaky integrator of white noise.
#[derive(Clone, Copy, Debug)]
pub struct Brown {
    current_sample: Fixed,
    leak: Fixed,
}

impl View for Brown {
    type V = BrownState;

    closed spec fn view(&self) -> BrownState {
        BrownState { current: self.current_sample@, leak: self.leak@ }
    }
}

impl Brown {
    /// A brown-noise generator at zero with the given leak.
    pub fn new(leak: Fixed) -> (r: Brown)
        ensures
            r@ == (BrownState { current: 0, leak: leak@ }),
    {
        Brown { current_sample: Fixed::zero(), leak }
    }
}

impl NoiseConfig for Brown {
    open spec fn after_reset(state: BrownState) -> BrownState {
        BrownState { current: 0, leak: state.leak }
    }

    open spec fn step(state: BrownState, w: int) -> (BrownState, int) {
        let sample = brown_sample(state.leak, state.current, w);
        (BrownState { current: sample, leak: state.leak }, sample)
    }

    fn reset(&mut self) {
        self.current_sample = Fixed::zero();
    }

    fn advance(&mut self, white: Fixed) -> (r: Fixed) {
        self.current_sample = self.leak.sat_mul(self.current_sample).sat_add(
            Fixed::one().sat_sub(self.leak).sat_mul(white),
        );
        self.current_sample
    }

    fn next(&mut self, rng: &mut StdRng) -> (r: Fixed) {
        let w = self.white(rng);
        self.advance(w)
    }
}

/// The attenuated white sample that violet noise is the difference of.
pub open spec fn violet_white(w: int) -> int {
    fx_mul(w, VIOLET_GAIN as int)
}

/// Violet noise: the first difference of attenuated white noise.
#[derive(Clone, Copy, Debug)]
pub struct Violet {
    previous_sample: Fixed,
}

impl View for Violet {
    type V = int;

    closed spec fn view(&self) -> int {
        self.previous_sample@
    }
}

impl Violet {
    /// A violet-noise generator whose previous sample is zero.
    pub fn new() -> (r: Violet)
        ensures
            r@ == 0,
    {
        Violet { previous_sample: Fixed::zero() }
    }
}

impl NoiseConfig for Violet {
    open spec fn after_reset(state: int) -> int {
        0
    }

    open spec fn step(state: int, w: int) -> (int, int) {
        (violet_white(w), fx_sub(violet_white(w), state))
    }

    fn reset(&mut self) {
        *self = Violet::new();
    }

    fn advance(&mut self, white: Fixed) -> (r: Fixed) {
        let white = white.sat_mul(Fixed::from_raw(VIOLET_GAIN));
        let violet = white.sat_sub(self.previous_sample);
        self.previous_sample = white;
        violet
    }

    fn next(&mut self, rng: &mut StdRng) -> (r: Fixed) {
        let w = self.white(rng);
        self.advance(w)
    }
}

/// Brown noise is a leaky walk: for a leak between zero and one and a white
/// sample between minus one and one, the magnitude of the new sample is at
/// most `leak * |previous| + (1 - leak) * 1`. Both sides are scaled by
/// `SCALE` so that the bound is exact.
pub proof fn lemma_brown_step_bounded(state: BrownState, w: int)
    requires
        0 <= state.leak <= SCALE,
        -SCALE <= w <= SCALE,
    ensures
        mag(<Brown as NoiseConfig>::step(state, w).1) * SCALE <= state.leak * mag(state.current) + (
        SCALE - state.leak) * SCALE,
{
    let s = SCALE as int;
    let a = fx_mul(state.leak, state.current);
    let rest = fx_sub(s, state.leak);
    let b = fx_mul(rest, w);
    lemma_product_magnitude(state.leak, state.current);
    lemma_product_magnitude(rest, w);
    assert(mag(rest) * mag(w) <= (s - state.leak) * s) by (nonlinear_arith)
        requires
            mag(rest) == s - state.leak,
            0 <= mag(w) <= s,
            0 <= s - state.leak,
    ;
    let out = fx_add(a, b);
    assert(mag(out) <= mag(a) + mag(b));
    assert(mag(out) * s <= mag(a) * s + mag(b) * s) by (nonlinear_arith)
        requires
            0 <= mag(out) <= mag(a) + mag(b),
            s > 0,
    ;
}

/// Brown noise that starts within minus one and one stays there.
pub proof fn lemma_brown_stays_in_range(state: BrownState, w: int)
    requires
        0 <= state.leak <= SCALE,
        -SCALE <= w <= SCALE,
        -SCALE <= state.current <= SCALE,
    ensures
        -SCALE <= <Brown as NoiseConfig>::step(state, w).1 <= SCALE,
{
    let s = SCALE as int;
    lemma_brown_step_bounded(state, w);
    let out = <Brown as NoiseConfig>::step(state, w).1;
    assert(mag(out) <= s) by (nonlinear_arith)
        requires
            mag(out) * s <= state.leak * mag(state.current) + (s - state.leak) * s,
            0 <= state.leak <= s,
            0 <= mag(state.current) <= s,
            s == 1_000_000_000,
    ;
}

/// Violet noise is the difference of two consecutive attenuated white
/// samples.
pub proof fn lemma_violet_is_difference(state: int, w0: int, w1: int)
    ensures
        ({
            let first = <Violet as NoiseConfig>::step(state, w0);
            let second = <Violet as NoiseConfig>::step(first.0, w1);
            second.1 == fx_sub(violet_white(w1), violet_white(w0))
        }),
{
}

/// A constant white input gives violet silence from the second sample on.
pub proof fn lemma_violet_constant_is_silent(state: int, w: int)
    ensures
        ({
            let first = <Violet as NoiseConfig>::step(state, w);
            let second = <Violet as NoiseConfig>::step(first.0, w);
            second.1 == 0 && second.0 == first.0
        }),
{
}

/// The raw state of the engine: the controls, the sample rate, the three
/// generators that hold state, both filter sections and the follower.
pub struct Engine {
    pub controls: Controls,
    pub sample_rate: int,
    pub pink: PinkTaps,
    pub brown: BrownState,
    pub violet: int,
    pub lpf: Section,
    pub hpf: Section,
    pub envelope: Envelope,
}

/// The engine after the selected generator took the white sample `w`, and
/// the noise sample it put out.
pub open spec fn generate(e: Engine, w: int) -> (Engine, int) {
    match e.controls.noise_type {
        NoiseType::White => (e, w),
        NoiseType::Pink => (Engine { pink: pink_taps(e.pink, w), ..e }, pink_out(e.pink, w)),
        NoiseType::Brown => {
            let sample = brown_sample(e.brown.leak, e.brown.current, w);
            (Engine { brown: BrownState { current: sample, leak: e.brown.leak }, ..e }, sample)
        },
        NoiseType::Violet => (
            Engine { violet: violet_white(w), ..e },
            fx_sub(violet_white(w), e.violet),
        ),
    }
}

/// The engine after `x` went through the low-pass and then the high-pass
/// section, and the sample that came out.
pub open spec fn band_limit(e: Engine, x: int) -> (Engine, int) {
    let low = section_out(e.lpf, x);
    (
        Engine { lpf: section_next(e.lpf, x), hpf: section_next(e.hpf, low), ..e },
        section_out(e.hpf, low),
    )
}

/// Continuous mix: `(filtered * gain) * mix + dry * (1 - mix)`.
pub open spec fn mix_continuous(filtered: int, gain: int, mix: int, dry: int) -> int {
    fx_add(fx_mul(fx_mul(filtered, gain), mix), fx_mul(dry, fx_sub(SCALE as int, mix)))
}

/// Envelope-gated mix: `(mix * (envelope * filtered)) * gain + dry * (1 - mix)`.
pub open spec fn mix_follow(filtered: int, gain: int, mix: int, dry: int, envelope: int) -> int {
    fx_add(
        fx_mul(fx_mul(mix, fx_mul(envelope, filtered)), gain),
        fx_mul(dry, fx_sub(SCALE as int, mix)),
    )
}

/// The engine after the filtered noise sample was mixed with the dry sample,
/// and the output sample. Only the follow mode advances the envelope.
pub open spec fn combine(e: Engine, filtered: int, dry: int) -> (Engine, int) {
    match e.controls.env_mode {
        EnvelopeMode::Continuous => (
            e,
            mix_continuous(filtered, e.controls.gain, e.controls.mix, dry),
        ),
        EnvelopeMode::Follow => {
            let envelope = follow(e.envelope, dry);
            (
                Engine { envelope, ..e },
                mix_follow(filtered, e.controls.gain, e.controls.mix, dry, envelope.value),
            )
        },
    }
}

/// One sample tick: generate from the white sample `w`, band-limit, mix with
/// `dry`.
#[verifier::opaque]
pub open spec fn engine_step(e: Engine, dry: int, w: int) -> (Engine, int) {
    let (e1, noise) = generate(e, w);
    let (e2, filtered) = band_limit(e1, noise);
    combine(e2, filtered, dry)
}

/// The engine after the dry samples `dries`, the `i`-th taken with the white
/// sample `ws[i]`.
pub open spec fn engine_after(e: Engine, dries: Seq<int>, ws: Seq<int>) -> Engine
    decreases dries.len(),
{
    if dries.len() == 0 {
        e
    } else {
        engine_step(engine_after(e, dries.drop_last(), ws.drop_last()), dries.last(), ws.last()).0
    }
}

/// The `i`-th output for the dry samples `dries` and the white samples `ws`.
pub open spec fn engine_output(e: Engine, dries: Seq<int>, ws: Seq<int>, i: int) -> int {
    engine_step(engine_after(e, dries.take(i), ws.take(i)), dries[i], ws[i]).1
}

/// The engine with new coefficients in both sections for its current
/// cutoffs and sample rate, and the request for them lowered.
pub open spec fn refreshed(e: Engine) -> Engine {
    Engine {
        controls: Controls { should_update_filters: false, ..e.controls },
        lpf: Section {
            taps: derive_taps(FilterType::Lowpass, e.controls.lpf_fc, e.sample_rate),
            regs: e.lpf.regs,
        },
        hpf: Section {
            taps: derive_taps(FilterType::Highpass, e.controls.hpf_fc, e.sample_rate),
            regs: e.hpf.regs,
        },
        ..e
    }
}

/// The engine with new coefficients in one section for the cutoff `fc`.
pub open spec fn retuned(e: Engine, filter_type: FilterType, fc: int) -> Engine {
    match filter_type {
        FilterType::Lowpass => Engine {
            lpf: Section { taps: derive_taps(filter_type, fc, e.sample_rate), regs: e.lpf.regs },
            ..e
        },
        FilterType::Highpass => Engine {
            hpf: Section { taps: derive_taps(filter_type, fc, e.sample_rate), regs: e.hpf.regs },
            ..e
        },
    }
}

/// The engine after a transport reset: the selected generator in its initial
/// state and both sections at rest.
pub open spec fn rewound(e: Engine) -> Engine {
    let rested = Engine {
        lpf: Section { taps: e.lpf.taps, regs: Registers { s1: 0, s2: 0 } },
        hpf: Section { taps: e.hpf.taps, regs: Registers { s1: 0, s2: 0 } },
        ..e
    };
    match e.controls.noise_type {
        NoiseType::White => rested,
        NoiseType::Pink => Engine { pink: silent_taps(), ..rested },
        NoiseType::Brown => Engine {
            brown: BrownState { current: 0, leak: e.brown.leak },
            ..rested
        },
        NoiseType::Violet => Engine { violet: 0, ..rested },
    }
}

/// The engine a stream sampled at `sample_rate` starts with: default
/// controls with the request for coefficients raised, all generators in
/// their initial state, both sections at rest with zero coefficients.
pub open spec fn fresh_engine(sample_rate: int) -> Engine {
    let zero = Section {
        taps: Taps { b0: 0, b1: 0, b2: 0, a0: 0, a1: 0, a2: 0 },
        regs: Registers { s1: 0, s2: 0 },
    };
    Engine {
        controls: NoiseParams::defaults(true),
        sample_rate,
        pink: silent_taps(),
        brown: BrownState { current: 0, leak: BROWN_LEAK as int },
        violet: 0,
        lpf: zero,
        hpf: zero,
        envelope: fresh_envelope(sample_rate),
    }
}

/// Whether the engine `e1` and the outputs `outs` are what the engine `e0`
/// gives for the dry samples `dries`, the `i`-th taken with the white sample
/// `ws[i]`.
pub open spec fn is_run(e0: Engine, dries: Seq<int>, ws: Seq<int>, e1: Engine, outs: Seq<int>) -> bool {
    &&& ws.len() == dries.len()
    &&& outs.len() == dries.len()
    &&& forall|i: int| 0 <= i < ws.len() ==> is_white(#[trigger] ws[i])
    &&& e1 == engine_after(e0, dries, ws)
    &&& forall|i: int| 0 <= i < outs.len() ==> #[trigger] outs[i] == engine_output(e0, dries, ws, i)
}

/// Whether two grids of one shape agree outside the `i`-th sample of each
/// channel.
pub open spec fn same_but_column(g0: Seq<Seq<int>>, g1: Seq<Seq<int>>, i: int) -> bool {
    &&& g1.len() == g0.len()
    &&& forall|c: int| 0 <= c < g0.len() ==> (#[trigger] g1[c]).len() == g0[c].len()
    &&& forall|c: int, k: int|
        0 <= c < g0.len() && 0 <= k < g0[c].len() && k != i ==> #[trigger] g1[c][k] == g0[c][k]
}

/// Whether `g1` is `g0` with the `i`-th sample replaced in some of the first
/// `done` channels and in no other.
pub open spec fn column_progress(g0: Seq<Seq<int>>, g1: Seq<Seq<int>>, i: int, done: int) -> bool {
    &&& same_but_column(g0, g1, i)
    &&& forall|c: int| done <= c < g0.len() ==> #[trigger] g1[c][i] == g0[c][i]
}

/// New cutoffs for one sample tick, as the parameter layer gives them while
/// a cutoff is on its way to a new value. `None` leaves a section as it is.
#[derive(Clone, Copy, Debug)]
pub struct Ramp {
    pub lpf_fc: Option<Fixed>,
    pub hpf_fc: Option<Fixed>,
}

/// The engine with new coefficients for the cutoffs that a ramp names, the
/// low-pass section first.
pub open spec fn tuned(e: Engine, ramp: Ramp) -> Engine {
    let low = match ramp.lpf_fc {
        Some(fc) => retuned(e, FilterType::Lowpass, fc@),
        None => e,
    };
    match ramp.hpf_fc {
        Some(fc) => retuned(low, FilterType::Highpass, fc@),
        None => low,
    }
}

/// The ramp for the `i`-th sample tick of a block: the `i`-th of `ramps`,
/// and none beyond their end.
pub open spec fn ramp_at(ramps: Seq<Ramp>, i: int) -> Ramp {
    if 0 <= i < ramps.len() {
        ramps[i]
    } else {
        Ramp { lpf_fc: None, hpf_fc: None }
    }
}

/// The engine at the start of a block: with new coefficients if they were
/// asked for.
pub open spec fn block_start(e: Engine) -> Engine {
    if e.controls.should_update_filters {
        refreshed(e)
    } else {
        e
    }
}

/// The engine after the first `i` sample ticks of the block `g`. At each
/// tick the sections are tuned as the ramp asks, and then the tick's samples
/// are processed in channel order with the white samples `wss[tick]`.
pub open spec fn block_after(
    e: Engine,
    g: Seq<Seq<int>>,
    ramps: Seq<Ramp>,
    wss: Seq<Seq<int>>,
    i: int,
) -> Engine
    decreases i,
{
    if i <= 0 {
        block_start(e)
    } else {
        engine_after(
            tuned(block_after(e, g, ramps, wss, i - 1), ramp_at(ramps, i - 1)),
            column(g, i - 1),
            wss[i - 1],
        )
    }
}

/// The output for channel `c` at sample tick `i` of the block `g`.
pub open spec fn block_output(
    e: Engine,
    g: Seq<Seq<int>>,
    ramps: Seq<Ramp>,
    wss: Seq<Seq<int>>,
    i: int,
    c: int,
) -> int {
    engine_output(
        tuned(block_after(e, g, ramps, wss, i), ramp_at(ramps, i)),
        column(g, i),
        wss[i],
        c,
    )
}

/// Whether `ws` holds one white sample for each of `channels` channels.
pub open spec fn white_run(ws: Seq<int>, channels: int) -> bool {
    ws.len() == channels && forall|c: int| 0 <= c < ws.len() ==> is_white(#[trigger] ws[c])
}

/// Whether two grids have one shape.
pub open spec fn same_shape(g0: Seq<Seq<int>>, g1: Seq<Seq<int>>) -> bool {
    &&& g1.len() == g0.len()
    &&& forall|c: int| 0 <= c < g0.len() ==> (#[trigger] g1[c]).len() == g0[c].len()
}

/// Whether the engine `e1` and the block `g1` are what the engine `e0`
/// makes of the block `g0` with the given ramps, the samples of tick `i`
/// taken with the white samples `wss[i]`.
pub open spec fn is_block_run(
    e0: Engine,
    g0: Seq<Seq<int>>,
    ramps: Seq<Ramp>,
    wss: Seq<Seq<int>>,
    e1: Engine,
    g1: Seq<Seq<int>>,
) -> bool {
    &&& same_shape(g0, g1)
    &&& wss.len() == grid_samples(g0)
    &&& forall|i: int| 0 <= i < wss.len() ==> white_run(#[trigger] wss[i], g0.len() as int)
    &&& e1 == block_after(e0, g0, ramps, wss, grid_samples(g0))
    &&& forall|c: int, i: int|
        0 <= c < g0.len() && 0 <= i < grid_samples(g0) ==> #[trigger] g1[c][i] == block_output(
            e0,
            g0,
            ramps,
            wss,
            i,
            c,
        )
}

/// Whether `g1` holds the outputs of the first `done` sample ticks and the
/// samples of `g0` from there on.
pub open spec fn block_progress(
    e0: Engine,
    g0: Seq<Seq<int>>,
    ramps: Seq<Ramp>,
    wss: Seq<Seq<int>>,
    g1: Seq<Seq<int>>,
    done: int,
) -> bool {
    &&& same_shape(g0, g1)
    &&& forall|c: int, i: int|
        0 <= c < g0.len() && 0 <= i < done && i < g0[c].len() ==> #[trigger] g1[c][i]
            == block_output(e0, g0, ramps, wss, i, c)
    &&& forall|c: int, i: int|
        0 <= c < g0.len() && done <= i < g0[c].len() ==> #[trigger] g1[c][i] == g0[c][i]
}

/// The raw values of white samples that a caller supplies, each limited to
/// the range from minus one to one.
pub open spec fn limited(whites: Seq<Fixed>) -> Seq<int> {
    Seq::new(whites.len(), |c: int| clamp_between(whites[c]@, -SCALE, SCALE as int))
}

/// The same for the white samples of a block, one run for each sample tick.
pub open spec fn limited_grid(whites: Seq<Vec<Fixed>>) -> Seq<Seq<int>> {
    Seq::new(whites.len(), |i: int| limited(whites[i]@))
}

/// Whether `whites` holds one white sample for each sample tick and channel
/// of the block `g`, the samples of a tick together.
pub open spec fn covers(whites: Seq<Vec<Fixed>>, g: Seq<Seq<int>>) -> bool {
    &&& whites.len() == grid_samples(g)
    &&& forall|i: int| 0 <= i < whites.len() ==> (#[trigger] whites[i])@.len() == g.len()
}

/// The sample rate that an engine has until it is told another, in hertz.
pub const DEFAULT_SAMPLE_RATE: i64 = 44_100_000_000_000;

/// The noise engine: generators, band-limiting filter, envelope follower
/// and mixer.
pub struct Noise {
    pub params: NoiseParams,
    pub rng: StdRng,
    pub white: White,
    pub pink: Pink,
    pub brown: Brown,
    pub violet: Violet,
    pub sample_rate: Fixed,
    pub lpf: Biquad,
    pub hpf: Biquad,
    pub envelope_follower: EnvelopeFollower,
}

impl View for Noise {
    type V = Engine;

    open spec fn view(&self) -> Engine {
        Engine {
            controls: self.params@,
            sample_rate: self.sample_rate@,
            pink: self.pink@,
            brown: self.brown@,
            violet: self.violet@,
            lpf: self.lpf@,
            hpf: self.hpf@,
            envelope: self.envelope_follower@,
        }
    }
}

impl Noise {
    /// An engine for a stream sampled at `sample_rate` whose white samples
    /// come from `rng`.
    pub fn new(rng: StdRng, sample_rate: Fixed) -> (r: Noise)
        ensures
            r@ == fresh_engine(sample_rate@),
            r.rng == rng,
    {
        Noise {
            params: NoiseParams::new(true),
            rng,
            white: White::new(),
            pink: Pink::new(),
            brown: Brown::new(Fixed::from_raw(BROWN_LEAK)),
            violet: Violet::new(),
            sample_rate,
            lpf: Biquad::default(),
            hpf: Biquad::default(),
            envelope_follower: EnvelopeFollower::new(sample_rate),
        }
    }

    /// Takes a new sample rate: the follower's coefficients are recomputed
    /// and new filter coefficients are asked for.
    pub fn initialize(&mut self, sample_rate: Fixed)
        ensures
            final(self)@ == (Engine {
                sample_rate: sample_rate@,
                controls: Controls { should_update_filters: true, ..old(self)@.controls },
                envelope: Envelope {
                    value: old(self)@.envelope.value,
                    ..fresh_envelope(sample_rate@)
                },
                ..old(self)@
            }),
            final(self).rng == old(self).rng,
    {
        self.sample_rate = sample_rate;
        self.envelope_follower.set_sample_rate(sample_rate);
        self.params.request_filter_update();
    }

    /// Returns the selected generator to its initial state and clears the
    /// delay registers of both filter sections.
    pub fn reset(&mut self)
        ensures
            final(self)@ == rewound(old(self)@),
            final(self).rng == old(self).rng,
    {
        match self.params.noise_type() {
            NoiseType::White => self.white.reset(),
            NoiseType::Pink => self.pink.reset(),
            NoiseType::Brown => self.brown.reset(),
            NoiseType::Violet => self.violet.reset(),
        }
        self.lpf.reset();
        self.hpf.reset();
    }

    /// Derives new coefficients for both sections if they were asked for,
    /// and lowers the request. Returns whether it did.
    pub fn refresh_filters(&mut self) -> (updated: bool)
        ensures
            updated == old(self)@.controls.should_update_filters,
            final(self)@ == if updated { refreshed(old(self)@) } else { old(self)@ },
            updated ==> stable(final(self)@.lpf.taps) && stable(final(self)@.hpf.taps),
            final(self).rng == old(self).rng,
    {
        if self.params.take_should_update_filters() {
            self.lpf.coefficients.update(self.params.lpf_fc(), self.sample_rate, FilterType::Lowpass);
            self.hpf.coefficients.update(
                self.params.hpf_fc(),
                self.sample_rate,
                FilterType::Highpass,
            );
            true
        } else {
            false
        }
    }

    /// Derives new coefficients for one section from the cutoff `fc`, as
    /// while that cutoff is on its way to a new value.
    pub fn retune(&mut self, filter_type: FilterType, fc: Fixed)
        ensures
            final(self)@ == retuned(old(self)@, filter_type, fc@),
            match filter_type {
                FilterType::Lowpass => stable(final(self)@.lpf.taps),
                FilterType::Highpass => stable(final(self)@.hpf.taps),
            },
            final(self).rng == old(self).rng,
    {
        match filter_type {
            FilterType::Lowpass => self.lpf.coefficients.update(fc, self.sample_rate, filter_type),
            FilterType::Highpass => self.hpf.coefficients.update(fc, self.sample_rate, filter_type),
        }
    }

    fn next(&mut self, white: Fixed) -> (r: Fixed)
        ensures
            (final(self)@, r@) == generate(old(self)@, white@),
            final(self).rng == old(self).rng,
    {
        match self.params.noise_type() {
            NoiseType::White => self.white.advance(white),
            NoiseType::Pink => self.pink.advance(white),
            NoiseType::Brown => self.brown.advance(white),
            NoiseType::Violet => self.violet.advance(white),
        }
    }

    fn filter_noise(&mut self, sample: Fixed) -> (r: Fixed)
        ensures
            (final(self)@, r@) == band_limit(old(self)@, sample@),
            final(self).rng == old(self).rng,
    {
        let lowpassed_noise = self.lpf.process(sample);
        self.hpf.process(lowpassed_noise)
    }

    /// Processes one dry sample with a white sample supplied by the caller,
    /// which is first limited to the range from minus one to one.
    pub fn process_drawn(&mut self, sample: Fixed, white: Fixed) -> (r: Fixed)
        ensures
            (final(self)@, r@) == engine_step(
                old(self)@,
                sample@,
                clamp_between(white@, -SCALE, SCALE as int),
            ),
            old(self)@.controls.env_mode == EnvelopeMode::Continuous && old(self)@.controls.mix == 0
                ==> r@ == sample@,
            final(self).rng == old(self).rng,
    {
        proof {
            reveal(engine_step);
            if old(self)@.controls.env_mode == EnvelopeMode::Continuous {
                lemma_continuous_mix_extremes(
                    old(self)@,
                    sample@,
                    clamp_between(white@, -SCALE, SCALE as int),
                );
            }
        }
        let white = white.clamp(Fixed::from_raw(-SCALE), Fixed::one());
        let noise_sample = self.next(white);
        let filtered_noise = self.filter_noise(noise_sample);
        let mix_level = self.params.mix();
        let gain = self.params.gain();
        let one = Fixed::one();
        match self.params.env_mode() {
            EnvelopeMode::Continuous => {
                filtered_noise.sat_mul(gain).sat_mul(mix_level).sat_add(
                    sample.sat_mul(one.sat_sub(mix_level)),
                )
            },
            EnvelopeMode::Follow => {
                let envelope = self.envelope_follower.process(sample);
                let noise_w_envelope = envelope.sat_mul(filtered_noise);
                mix_level.sat_mul(noise_w_envelope).sat_mul(gain).sat_add(
                    sample.sat_mul(one.sat_sub(mix_level)),
                )
            },
        }
    }

    /// Processes one dry sample with a white sample drawn uniformly from the
    /// engine's own generator, whatever distribution the controls name: a
    /// caller that wants another draws the white sample itself and calls
    /// [`Noise::process_drawn`].
    pub fn process(&mut self, sample: Fixed) -> (r: Fixed)
        ensures
            exists|w: int|
                is_white(w) && #[trigger] engine_step(old(self)@, sample@, w) == (final(self)@, r@),
            old(self)@.controls.env_mode == EnvelopeMode::Continuous && old(self)@.controls.mix == 0
                ==> r@ == sample@,
    {
        let white = self.white.white(&mut self.rng);
        let r = self.process_drawn(sample, white);
        proof {
            assert(clamp_between(white@, -SCALE, SCALE as int) == white@);
            assert(engine_step(old(self)@, sample@, white@) == (self@, r@));
        }
        r
    }

    /// Processes the `i`-th sample of every channel of `buffer` in place, in
    /// channel order, each with a white sample drawn from the engine's own
    /// generator. All other samples stay as they are.
    pub fn process_frame(&mut self, buffer: &mut Buffer, i: usize)
        requires
            old(buffer).wf(),
            i < grid_samples(old(buffer)@),
        ensures
            final(buffer).wf(),
            same_but_column(old(buffer)@, final(buffer)@, i as int),
            exists|ws: Seq<int>| #[trigger]
                is_run(
                    old(self)@,
                    column(old(buffer)@, i as int),
                    ws,
                    final(self)@,
                    column(final(buffer)@, i as int),
                ),
    {
        let channels = buffer.channels();
        let samples = buffer.samples();
        let ghost g0 = buffer@;
        let ghost dries = column(buffer@, i as int);
        let ghost e0 = self@;
        let ghost mut ws: Seq<int> = Seq::empty();
        let mut c: usize = 0;
        while c < channels
            invariant
                c <= channels,
                buffer.wf(),
                channels == g0.len(),
                i < samples,
                forall|ch: int| 0 <= ch < g0.len() ==> (#[trigger] g0[ch]).len() == samples,
                dries == column(g0, i as int),
                ws.len() == c,
                forall|j: int| 0 <= j < c ==> is_white(#[trigger] ws[j]),
                self@ == engine_after(e0, dries.take(c as int), ws),
                column_progress(g0, buffer@, i as int, c as int),
                forall|j: int| 0 <= j < c ==> #[trigger] buffer@[j][i as int] == engine_output(e0, dries, ws, j),
            decreases channels - c,
        {
            let ghost before = self@;
            let ghost g1 = buffer@;
            let x = buffer.get(c, i);
            let out = self.process(x);
            let ghost w = choose|w: int|
                is_white(w) && #[trigger] engine_step(before, x@, w) == (self@, out@);
            buffer.set(c, i, out);
            proof {
                lemma_run_step(e0, dries, ws, w, c as int);
                let grown = ws.push(w);
                let g2 = buffer@;
                assert(g1[c as int].len() == g0[c as int].len());
                assert(x@ == dries[c as int]);
                assert forall|j: int| 0 <= j < c + 1 implies #[trigger] g2[j][i as int]
                    == engine_output(e0, dries, grown, j) by {
                    if j < c {
                        assert(g2[j] == g1[j]);
                        assert(g1[j][i as int] == engine_output(e0, dries, ws, j));
                    }
                }
                assert(column_progress(g0, g2, i as int, c + 1)) by {
                    assert forall|ch: int| 0 <= ch < g0.len() implies (#[trigger] g2[ch]).len()
                        == g0[ch].len() by {
                        assert(g1[ch].len() == g0[ch].len());
                    }
                    assert forall|ch: int, k: int|
                        0 <= ch < g0.len() && 0 <= k < g0[ch].len() && k != i implies #[trigger] g2[ch][k]
                        == g0[ch][k] by {
                        assert(g1[ch].len() == g0[ch].len());
                        assert(g1[ch][k] == g0[ch][k]);
                    }
                    assert forall|ch: int| c + 1 <= ch < g0.len() implies #[trigger] g2[ch][i as int]
                        == g0[ch][i as int] by {
                        assert(g1[ch][i as int] == g0[ch][i as int]);
                    }
                }
                ws = grown;
            }
            c += 1;
        }
        proof {
            assert(dries.take(channels as int) =~= dries);
            assert(column(buffer@, i as int).len() == dries.len());
            assert(is_run(e0, dries, ws, self@, column(buffer@, i as int)));
        }
    }

    /// Processes the `i`-th sample of every channel of `buffer` in place, in
    /// channel order, the sample of channel `c` with the white sample
    /// `whites[c]`, limited to the range from minus one to one. All other
    /// samples stay as they are, and nothing is drawn.
    pub fn process_frame_drawn(&mut self, buffer: &mut Buffer, i: usize, whites: &Vec<Fixed>)
        requires
            old(buffer).wf(),
            i < grid_samples(old(buffer)@),
            whites@.len() == old(buffer)@.len(),
        ensures
            final(buffer).wf(),
            same_but_column(old(buffer)@, final(buffer)@, i as int),
            is_run(
                old(self)@,
                column(old(buffer)@, i as int),
                limited(whites@),
                final(self)@,
                column(final(buffer)@, i as int),
            ),
            final(self).rng == old(self).rng,
    {
        let channels = buffer.channels();
        let samples = buffer.samples();
        let ghost g0 = buffer@;
        let ghost dries = column(buffer@, i as int);
        let ghost e0 = self@;
        let ghost ws = limited(whites@);
        let mut c: usize = 0;
        proof {
            assert(ws.take(0) =~= Seq::<int>::empty());
        }
        while c < channels
            invariant
                c <= channels,
                buffer.wf(),
                channels == g0.len(),
                whites@.len() == channels,
                i < samples,
                forall|ch: int| 0 <= ch < g0.len() ==> (#[trigger] g0[ch]).len() == samples,
                dries == column(g0, i as int),
                ws == limited(whites@),
                self@ == engine_after(e0, dries.take(c as int), ws.take(c as int)),
                self.rng == old(self).rng,
                column_progress(g0, buffer@, i as int, c as int),
                forall|j: int| 0 <= j < c ==> #[trigger] buffer@[j][i as int] == engine_output(e0, dries, ws, j),
            decreases channels - c,
        {
            let ghost g1 = buffer@;
            let x = buffer.get(c, i);
            let out = self.process_drawn(x, whites[c]);
            buffer.set(c, i, out);
            proof {
                let g2 = buffer@;
                assert(g1[c as int].len() == g0[c as int].len());
                assert(x@ == dries[c as int]);
                assert(ws[c as int] == clamp_between(whites@[c as int]@, -SCALE, SCALE as int));
                lemma_run_step(e0, dries, ws.take(c as int), ws[c as int], c as int);
                assert(ws.take(c as int).push(ws[c as int]) =~= ws.take(c + 1));
                assert forall|j: int| 0 <= j < c + 1 implies #[trigger] g2[j][i as int]
                    == engine_output(e0, dries, ws, j) by {
                    if j < c {
                        assert(g2[j] == g1[j]);
                        assert(g1[j][i as int] == engine_output(e0, dries, ws, j));
                    }
                }
                assert(column_progress(g0, g2, i as int, c + 1)) by {
                    assert forall|ch: int| 0 <= ch < g0.len() implies (#[trigger] g2[ch]).len()
                        == g0[ch].len() by {
                        assert(g1[ch].len() == g0[ch].len());
                    }
                    assert forall|ch: int, k: int|
                        0 <= ch < g0.len() && 0 <= k < g0[ch].len() && k != i implies #[trigger] g2[ch][k]
                        == g0[ch][k] by {
                        assert(g1[ch].len() == g0[ch].len());
                        assert(g1[ch][k] == g0[ch][k]);
                    }
                    assert forall|ch: int| c + 1 <= ch < g0.len() implies #[trigger] g2[ch][i as int]
                        == g0[ch][i as int] by {
                        assert(g1[ch][i as int] == g0[ch][i as int]);
                    }
                }
            }
            c += 1;
        }
        proof {
            assert(dries.take(channels as int) =~= dries);
            assert(ws.take(channels as int) =~= ws);
            assert(column(buffer@, i as int).len() == dries.len());
            assert(is_run(e0, dries, ws, self@, column(buffer@, i as int)));
        }
    }

    /// Tunes the sections as a ramp asks, the low-pass section first.
    fn tune(&mut self, ramp: &Ramp)
        ensures
            final(self)@ == tuned(old(self)@, *ramp),
            final(self).rng == old(self).rng,
    {
        match ramp.lpf_fc {
            Some(fc) => self.retune(FilterType::Lowpass, fc),
            None => {},
        }
        match ramp.hpf_fc {
            Some(fc) => self.retune(FilterType::Highpass, fc),
            None => {},
        }
    }

    /// Processes a block of audio in place. New filter coefficients are
    /// derived first if they were asked for. Then, sample tick by sample
    /// tick, the sections are tuned as the tick's ramp asks, if there is
    /// one, and the samples of the tick are processed in channel order, each
    /// with a white sample drawn from the engine's own generator.
    pub fn process_block(&mut self, buffer: &mut Buffer, ramps: &Vec<Ramp>)
        requires
            old(buffer).wf(),
        ensures
            final(buffer).wf(),
            exists|wss: Seq<Seq<int>>| #[trigger]
                is_block_run(
                    old(self)@,
                    old(buffer)@,
                    ramps@,
                    wss,
                    final(self)@,
                    final(buffer)@,
                ),
    {
        let ghost e0 = self@;
        let ghost g0 = buffer@;
        let samples = buffer.samples();
        self.refresh_filters();
        let ghost mut wss: Seq<Seq<int>> = Seq::empty();
        let mut i: usize = 0;
        while i < samples
            invariant
                i <= samples,
                buffer.wf(),
                samples == grid_samples(g0),
                forall|c: int| 0 <= c < g0.len() ==> (#[trigger] g0[c]).len() == samples,
                wss.len() == i,
                forall|k: int| 0 <= k < i ==> white_run(#[trigger] wss[k], g0.len() as int),
                self@ == block_after(e0, g0, ramps@, wss, i as int),
                block_progress(e0, g0, ramps@, wss, buffer@, i as int),
            decreases samples - i,
        {
            let ghost g1 = buffer@;
            let ghost before = self@;
            if i < ramps.len() {
                self.tune(&ramps[i]);
            }
            let ghost start = self@;
            assert(start == tuned(before, ramp_at(ramps@, i as int)));
            assert(grid_samples(g1) == samples);
            self.process_frame(buffer, i);
            let ghost ws = choose|ws: Seq<int>| #[trigger]
                is_run(start, column(g1, i as int), ws, self@, column(buffer@, i as int));
            proof {
                let g2 = buffer@;
                let grown = wss.push(ws);
                assert(column(g1, i as int) =~= column(g0, i as int));
                lemma_block_prefix(e0, g0, ramps@, wss, ws, i as int);
                assert(grown[i as int] == ws);
                assert(block_after(e0, g0, ramps@, grown, i + 1) == self@);
                assert forall|c: int, k: int|
                    0 <= c < g0.len() && 0 <= k < i + 1 && k < g0[c].len() implies #[trigger] g2[c][k]
                    == block_output(e0, g0, ramps@, grown, k, c) by {
                    assert(g1[c].len() == g0[c].len());
                    if k < i {
                        lemma_block_prefix(e0, g0, ramps@, wss, ws, k);
                        assert(grown[k] == wss[k]);
                        assert(g2[c][k] == g1[c][k]);
                    } else {
                        assert(column(g2, i as int)[c] == g2[c][k]);
                    }
                }
                assert forall|c: int, k: int|
                    0 <= c < g0.len() && i + 1 <= k < g0[c].len() implies #[trigger] g2[c][k]
                    == g0[c][k] by {
                    assert(g1[c].len() == g0[c].len());
                    assert(g2[c][k] == g1[c][k]);
                }
                assert(same_shape(g0, g2)) by {
                    assert forall|c: int| 0 <= c < g0.len() implies (#[trigger] g2[c]).len()
                        == g0[c].len() by {
                        assert(g1[c].len() == g0[c].len());
                    }
                }
                wss = grown;
            }
            i += 1;
        }
        proof {
            assert(is_block_run(e0, g0, ramps@, wss, self@, buffer@));
        }
    }

    /// Processes a block of audio in place as [`Noise::process_block`]
    /// does, but with white samples that the caller supplies: `whites[i][c]`
    /// for channel `c` at sample tick `i`, each limited to the range from
    /// minus one to one. Nothing is drawn from the engine's own generator.
    pub fn process_block_drawn(
        &mut self,
        buffer: &mut Buffer,
        ramps: &Vec<Ramp>,
        whites: &Vec<Vec<Fixed>>,
    )
        requires
            old(buffer).wf(),
            covers(whites@, old(buffer)@),
        ensures
            final(buffer).wf(),
            is_block_run(
                old(self)@,
                old(buffer)@,
                ramps@,
                limited_grid(whites@),
                final(self)@,
                final(buffer)@,
            ),
            final(self).rng == old(self).rng,
    {
        let ghost e0 = self@;
        let ghost g0 = buffer@;
        let ghost wss = limited_grid(whites@);
        let samples = buffer.samples();
        self.refresh_filters();
        let mut i: usize = 0;
        while i < samples
            invariant
                i <= samples,
                buffer.wf(),
                samples == grid_samples(g0),
                forall|c: int| 0 <= c < g0.len() ==> (#[trigger] g0[c]).len() == samples,
                covers(whites@, g0),
                wss == limited_grid(whites@),
                self@ == block_after(e0, g0, ramps@, wss, i as int),
                self.rng == old(self).rng,
                block_progress(e0, g0, ramps@, wss, buffer@, i as int),
            decreases samples - i,
        {
            let ghost g1 = buffer@;
            let ghost before = self@;
            if i < ramps.len() {
                self.tune(&ramps[i]);
            }
            let ghost start = self@;
            assert(start == tuned(before, ramp_at(ramps@, i as int)));
            assert(grid_samples(g1) == samples);
            assert(whites@[i as int]@.len() == g1.len());
            self.process_frame_drawn(buffer, i, &whites[i]);
            proof {
                let g2 = buffer@;
                assert(wss[i as int] == limited(whites@[i as int]@));
                assert(column(g1, i as int) =~= column(g0, i as int));
                assert(block_after(e0, g0, ramps@, wss, i + 1) == self@);
                assert forall|c: int, k: int|
                    0 <= c < g0.len() && 0 <= k < i + 1 && k < g0[c].len() implies #[trigger] g2[c][k]
                    == block_output(e0, g0, ramps@, wss, k, c) by {
                    assert(g1[c].len() == g0[c].len());
                    if k < i {
                        assert(g2[c][k] == g1[c][k]);
                    } else {
                        assert(column(g2, i as int)[c] == g2[c][k]);
                    }
                }
                assert forall|c: int, k: int|
                    0 <= c < g0.len() && i + 1 <= k < g0[c].len() implies #[trigger] g2[c][k]
                    == g0[c][k] by {
                    assert(g1[c].len() == g0[c].len());
                    assert(g2[c][k] == g1[c][k]);
                }
                assert(same_shape(g0, g2)) by {
                    assert forall|c: int| 0 <= c < g0.len() implies (#[trigger] g2[c]).len()
                        == g0[c].len() by {
                        assert(g1[c].len() == g0[c].len());
                    }
                }
            }
            i += 1;
        }
        proof {
            assert forall|k: int| 0 <= k < wss.len() implies white_run(
                #[trigger] wss[k],
                g0.len() as int,
            ) by {
                assert(wss[k] == limited(whites@[k]@));
            }
            assert(is_block_run(e0, g0, ramps@, wss, self@, buffer@));
        }
    }
}

/// The engine after the first `j` sample ticks of a block does not depend on
/// the white samples of later ticks.
pub proof fn lemma_block_prefix(
    e: Engine,
    g: Seq<Seq<int>>,
    ramps: Seq<Ramp>,
    wss: Seq<Seq<int>>,
    more: Seq<int>,
    j: int,
)
    requires
        j <= wss.len(),
    ensures
        block_after(e, g, ramps, wss.push(more), j) == block_after(e, g, ramps, wss, j),
    decreases j,
{
    if j > 0 {
        lemma_block_prefix(e, g, ramps, wss, more, j - 1);
        assert(wss.push(more)[j - 1] == wss[j - 1]);
    }
}

/// Taking one more dry sample with the white sample `w` extends a run by one
/// step and leaves its earlier outputs as they were.
pub proof fn lemma_run_step(e0: Engine, dries: Seq<int>, ws: Seq<int>, w: int, i: int)
    requires
        0 <= i < dries.len(),
        ws.len() == i,
    ensures
        engine_after(e0, dries.take(i + 1), ws.push(w)) == engine_step(
            engine_after(e0, dries.take(i), ws),
            dries[i],
            w,
        ).0,
        engine_output(e0, dries, ws.push(w), i) == engine_step(
            engine_after(e0, dries.take(i), ws),
            dries[i],
            w,
        ).1,
        forall|j: int|
            0 <= j < i ==> #[trigger] engine_output(e0, dries, ws.push(w), j) == engine_output(
                e0,
                dries,
                ws,
                j,
            ),
{
    let grown = ws.push(w);
    assert(dries.take(i + 1).drop_last() =~= dries.take(i));
    assert(grown.drop_last() =~= ws);
    assert(grown.take(i) =~= ws);
    assert forall|j: int| 0 <= j < i implies #[trigger] engine_output(e0, dries, grown, j)
        == engine_output(e0, dries, ws, j) by {
        assert(grown.take(j) =~= ws.take(j));
    }
}

/// With the mix at zero the continuous mix is exactly the dry sample.
pub proof fn lemma_mix_zero_is_dry(filtered: int, gain: int, dry: int)
    requires
        i64::MIN <= dry <= i64::MAX,
    ensures
        mix_continuous(filtered, gain, 0, dry) == dry,
{
    lemma_product_with_zero(fx_mul(filtered, gain));
    lemma_product_with_one(dry);
}

/// With the mix at one the continuous mix is exactly the filtered noise
/// times the gain.
pub proof fn lemma_mix_one_is_wet(filtered: int, gain: int, dry: int)
    ensures
        mix_continuous(filtered, gain, SCALE as int, dry) == fx_mul(filtered, gain),
{
    lemma_product_with_zero(dry);
    lemma_product_with_one(fx_mul(filtered, gain));
}

/// In continuous mode an engine with the mix at zero puts out the dry
/// sample, and one with the mix at one puts out the filtered noise times the
/// gain, whatever the white sample.
pub proof fn lemma_continuous_mix_extremes(e: Engine, dry: int, w: int)
    requires
        e.controls.env_mode == EnvelopeMode::Continuous,
        i64::MIN <= dry <= i64::MAX,
    ensures
        e.controls.mix == 0 ==> engine_step(e, dry, w).1 == dry,
        e.controls.mix == SCALE ==> engine_step(e, dry, w).1 == fx_mul(
            band_limit(generate(e, w).0, generate(e, w).1).1,
            e.controls.gain,
        ),
{
    reveal(engine_step);
    let (e1, noise) = generate(e, w);
    let (e2, filtered) = band_limit(e1, noise);
    assert(e2.controls == e.controls);
    lemma_mix_zero_is_dry(filtered, e.controls.gain, dry);
    lemma_mix_one_is_wet(filtered, e.controls.gain, dry);
}

} // verus!
