//! Framing and smoothing for the spectrum display.
//!
//! The analyser turns blocks of audio into overlapping, windowed frames, and
//! the Fourier transform of a frame into a spectrum that rises at once and
//! decays slowly. The transform itself is the caller's: it takes each frame
//! that [`Spectrum::process_buffer`] returns and hands the bins to
//! [`Spectrum::publish`].

use vstd::prelude::*;
use vstd::arithmetic::div_mod::lemma_fundamental_div_mod_converse;
use crate::buffer::{column, grid, grid_samples, Buffer};
use crate::envelope::follower::{lemma_smooth_between, smooth};
use crate::fixed::{
    fx_div, fx_mul, fx_sub, lemma_product_with_zero, lemma_quot_bounded, quot, raws, sat, Fixed,
    SCALE,
};
use crate::math::{cos_turns, exp_neg, hypot, spec_cos_turns, spec_exp_neg, spec_hypot};

verus! {

/// How many frames cover each sample: the hop is the window size divided by
/// this.
pub const OVERLAP_TIMES: usize = 2;

/// The time in milliseconds in which a bin that has gone silent falls to
/// `1/e` of its level.
pub const DECAY_MS: u32 = 100;

/// Raw value of one half.
pub const HALF: i64 = 500_000_000;

/// The `k`-th weight of a Hann window of `n` points, divided by `n`:
/// `(1/2 - 1/2 * cos(2 * pi * k / (n - 1))) / n`.
pub open spec fn hann_weight(k: int, n: int) -> int {
    quot(fx_sub(HALF as int, fx_mul(HALF as int, spec_cos_turns(quot(k * SCALE, n - 1)))), n)
}

/// The sum of a run of integers.
pub open spec fn total(s: Seq<int>) -> int
    decreases s.len(),
{
    if s.len() == 0 {
        0
    } else {
        total(s.drop_last()) + s.last()
    }
}

/// The mean of the channels at each sample of a block, rounded toward zero.
pub open spec fn mono(g: Seq<Seq<int>>) -> Seq<int> {
    Seq::new(grid_samples(g) as nat, |i: int| sat(quot(total(column(g, i)), g.len() as int)))
}

/// The `j`-th sample of a stream, and zero before its start.
pub open spec fn sample_at(h: Seq<int>, j: int) -> int {
    if 0 <= j < h.len() {
        h[j]
    } else {
        0
    }
}

/// The frame at the end of the stream `h`: its last `n` samples, preceded by
/// zeros where the stream is shorter, each multiplied by its window weight.
pub open spec fn frame_of(h: Seq<int>, n: int) -> Seq<int> {
    Seq::new(n as nat, |k: int| fx_mul(sample_at(h, h.len() - n + k), hann_weight(k, n)))
}

/// The frames that become complete while a stream grows from `from` samples
/// to `h`: one at every multiple of `hop` above `from`, in order.
pub open spec fn frames_between(h: Seq<int>, from: int, n: int, hop: int) -> Seq<Seq<int>> {
    Seq::new(
        (h.len() / (hop as nat) - from / hop) as nat,
        |j: int| frame_of(h.take((from / hop + j + 1) * hop), n),
    )
}

/// The weight of the old level in the smoothing of a bin, for frames `hop`
/// samples apart: `exp(-hop / (sample_rate * decay time))`.
pub open spec fn smoothing_decay(sample_rate: int, hop: int) -> int {
    spec_exp_neg(fx_div(hop * SCALE, fx_mul(sample_rate, DECAY_MS * (SCALE / 1000))))
}

/// The new level of a bin: the magnitude if that is higher, else the old
/// level on its way down to the magnitude.
pub open spec fn peak_hold(magnitude: int, level: int, decay: int) -> int {
    let fallen = smooth(level, magnitude, decay);
    if magnitude >= fallen {
        magnitude
    } else {
        fallen
    }
}

/// The magnitudes as given if there is one for each bin, else all zero.
pub open spec fn settled(magnitudes: Seq<int>, bins: int) -> Seq<int> {
    if magnitudes.len() == bins {
        magnitudes
    } else {
        Seq::new(bins as nat, |b: int| 0int)
    }
}

/// The levels of all bins after a frame with the given magnitudes.
pub open spec fn smoothed_levels(levels: Seq<int>, magnitudes: Seq<int>, decay: int) -> Seq<int> {
    Seq::new(
        levels.len(),
        |b: int| peak_hold(settled(magnitudes, levels.len() as int)[b], levels[b], decay),
    )
}

/// The next frame number: one more, and no more at the largest.
pub open spec fn next_frame_id(id: int) -> int {
    if id < u64::MAX {
        id + 1
    } else {
        id
    }
}

/// One bin of a Fourier transform.
#[derive(Clone, Copy, Debug)]
pub struct Complex {
    pub re: Fixed,
    pub im: Fixed,
}

impl Complex {
    /// The magnitude `sqrt(re^2 + im^2)`, rounded down.
    pub fn norm(&self) -> (r: Fixed)
        ensures
            r@ == spec_hypot(self.re@, self.im@),
            r@ >= 0,
    {
        hypot(self.re, self.im)
    }
}

/// The magnitude of every bin of a transform.
pub open spec fn norms(spectrum: Seq<Complex>) -> Seq<int> {
    Seq::new(spectrum.len(), |b: int| spec_hypot(spectrum[b].re@, spectrum[b].im@))
}

/// What an analyser holds, as raw values.
pub struct Analysis {
    /// The sample rate in hertz.
    pub sample_rate: int,
    /// The number of channels of the blocks it takes.
    pub channels: int,
    /// The number of samples in a frame.
    pub window_size: int,
    /// Every sample taken so far, channels averaged.
    pub history: Seq<int>,
    /// The level of every bin.
    pub levels: Seq<int>,
    /// The number of frames published.
    pub frames: int,
}

impl Analysis {
    /// The number of samples between the starts of two frames.
    pub open spec fn hop(self) -> int {
        self.window_size / (OVERLAP_TIMES as int)
    }

    /// The number of bins of a spectrum.
    pub open spec fn bins(self) -> int {
        self.window_size / 2 + 1
    }
}

/// Whether an analyser can be made for these sizes: at least one channel,
/// and a window of at least two samples, so that there is a hop.
pub open spec fn valid_sizes(num_channels: int, window_size: int) -> bool {
    1 <= num_channels && 2 <= window_size
}

/// The analyser before the first sample.
pub open spec fn fresh_analysis(sample_rate: int, num_channels: int, window_size: int) -> Analysis {
    Analysis {
        sample_rate,
        channels: num_channels,
        window_size,
        history: Seq::empty(),
        levels: Seq::new((window_size / 2 + 1) as nat, |b: int| 0int),
        frames: 0,
    }
}

/// The place in a ring of `n` slots that is `k` slots after `pos`.
pub open spec fn slot(pos: int, k: int, n: int) -> int {
    if pos + k < n {
        pos + k
    } else {
        pos + k - n
    }
}

/// A run of `n` zeros.
fn zeros(n: usize) -> (r: Vec<Fixed>)
    ensures
        r@.len() == n,
        forall|k: int| 0 <= k < n ==> (#[trigger] r@[k])@ == 0,
{
    let mut r: Vec<Fixed> = Vec::new();
    let mut k: usize = 0;
    while k < n
        invariant
            k <= n,
            r@.len() == k,
            forall|j: int| 0 <= j < k ==> (#[trigger] r@[j])@ == 0,
        decreases n - k,
    {
        r.push(Fixed::zero());
        k += 1;
    }
    r
}

/// A Hann window of `size` points, each weight divided by `size`.
pub fn hann_window(size: usize) -> (r: Vec<Fixed>)
    requires
        2 <= size,
    ensures
        r@.len() == size,
        forall|k: int| 0 <= k < size ==> (#[trigger] r@[k])@ == hann_weight(k, size as int),
{
    let mut r: Vec<Fixed> = Vec::new();
    let half = Fixed::from_raw(HALF);
    let mut k: usize = 0;
    while k < size
        invariant
            k <= size,
            2 <= size,
            half@ == HALF,
            r@.len() == k,
            forall|j: int| 0 <= j < k ==> (#[trigger] r@[j])@ == hann_weight(j, size as int),
        decreases size - k,
    {
        let ghost n = size as int;
        let turns = Fixed::from_ratio((k as i128) * 1_000_000_000, (size - 1) as i128);
        let cos = cos_turns(turns);
        let rise = half.sat_sub(half.sat_mul(cos));
        let weight = Fixed::from_ratio(rise.raw as i128, size as i128);
        proof {
            lemma_quot_bounded(k * SCALE, n - 1);
            assert(turns@ == quot(k * SCALE, n - 1)) by {
                assert(k * SCALE <= (n - 1) * SCALE) by (nonlinear_arith)
                    requires
                        0 <= k <= n - 1,
                        SCALE == 1_000_000_000,
                ;
                assert((k * SCALE) / (n - 1) <= SCALE) by (nonlinear_arith)
                    requires
                        0 <= k * SCALE <= (n - 1) * SCALE,
                        n - 1 >= 1,
                ;
            }
            lemma_quot_bounded(rise@, n);
        }
        r.push(weight);
        k += 1;
    }
    r
}

/// The weight of the old level for frames `hop` samples apart.
fn decay_for(sample_rate: Fixed, hop: usize) -> (r: Fixed)
    ensures
        r@ == smoothing_decay(sample_rate@, hop as int),
        0 <= r@ <= SCALE,
{
    let time = Fixed::from_raw((DECAY_MS as i64) * 1_000_000);
    let span = sample_rate.sat_mul(time);
    let hops = if span.raw == 0 {
        if hop > 0 {
            Fixed::from_raw(0x7fff_ffff_ffff_ffff)
        } else {
            Fixed::zero()
        }
    } else {
        Fixed::from_ratio((hop as i128) * 1_000_000_000_000_000_000, span.raw as i128)
    };
    exp_neg(hops)
}

/// The mean of the channels at sample `i` of a block.
fn mean_at(buffer: &Buffer, i: usize) -> (r: Fixed)
    requires
        buffer.wf(),
        1 <= buffer@.len(),
        i < grid_samples(buffer@),
    ensures
        r@ == mono(buffer@)[i as int],
{
    let channels = buffer.channels();
    let ghost col = column(buffer@, i as int);
    let mut sum: i128 = 0;
    let mut c: usize = 0;
    while c < channels
        invariant
            c <= channels,
            buffer.wf(),
            channels == buffer@.len(),
            i < grid_samples(buffer@),
            col == column(buffer@, i as int),
            sum == total(col.take(c as int)),
            -0x8000_0000_0000_0000 * c <= sum <= 0x8000_0000_0000_0000 * c,
        decreases channels - c,
    {
        let x = buffer.get(c, i);
        proof {
            assert(col.take(c + 1).drop_last() =~= col.take(c as int));
            assert(col.take(c + 1).last() == x@);
        }
        sum = sum + x.raw as i128;
        c += 1;
    }
    proof {
        assert(col.take(channels as int) =~= col);
    }
    Fixed::from_wide(sum / (channels as i128))
}

/// Accumulates audio into overlapping windowed frames and smooths the
/// spectra made from them.
pub struct Spectrum {
    num_channels: usize,
    window_size: usize,
    hop: usize,
    ring: Vec<Fixed>,
    write_pos: usize,
    since_frame: usize,
    window: Vec<Fixed>,
    levels: Vec<Fixed>,
    sample_rate: Fixed,
    decay: Fixed,
    frames: u64,
    history: Ghost<Seq<int>>,
    hops: Ghost<int>,
}

impl View for Spectrum {
    type V = Analysis;

    closed spec fn view(&self) -> Analysis {
        Analysis {
            sample_rate: self.sample_rate@,
            channels: self.num_channels as int,
            window_size: self.window_size as int,
            history: self.history@,
            levels: raws(self.levels@),
            frames: self.frames as int,
        }
    }
}

impl Spectrum {
    /// Whether the buffers have the sizes that the window size asks for and
    /// hold what the stream so far has put there. Every analyser that this
    /// module hands out is well formed.
    pub closed spec fn wf(&self) -> bool {
        &&& valid_sizes(self.num_channels as int, self.window_size as int)
        &&& self.hop == self.window_size / OVERLAP_TIMES
        &&& self.ring@.len() == self.window_size
        &&& self.window@.len() == self.window_size
        &&& self.levels@.len() == self.window_size / 2 + 1
        &&& self.write_pos < self.window_size
        &&& self.since_frame < self.hop
        &&& forall|k: int|
            0 <= k < self.window_size ==> (#[trigger] self.window@[k])@ == hann_weight(
                k,
                self.window_size as int,
            )
        &&& forall|k: int|
            0 <= k < self.window_size ==> self.ring@[#[trigger] slot(
                self.write_pos as int,
                k,
                self.window_size as int,
            )]@ == sample_at(self.history@, self.history@.len() - self.window_size + k)
        &&& self.hops@ >= 0
        &&& self.hops@ * self.hop + self.since_frame == self.history@.len()
        &&& self.decay@ == smoothing_decay(self.sample_rate@, self.hop as int)
        &&& 0 <= self.decay@ <= SCALE
    }

    /// An analyser for blocks of `num_channels` channels and frames of
    /// `window_size` samples, if there is at least one channel and the
    /// window has at least two samples.
    pub fn new(sample_rate: Fixed, num_channels: usize, window_size: usize) -> (r: Option<Spectrum>)
        ensures
            r.is_some() == valid_sizes(num_channels as int, window_size as int),
            r.is_some() ==> r.unwrap().wf() && r.unwrap()@ == fresh_analysis(
                sample_rate@,
                num_channels as int,
                window_size as int,
            ),
    {
        if num_channels < 1 || window_size < 2 {
            return None;
        }
        let hop = window_size / OVERLAP_TIMES;
        let this = Spectrum {
            num_channels,
            window_size,
            hop,
            ring: zeros(window_size),
            write_pos: 0,
            since_frame: 0,
            window: hann_window(window_size),
            levels: zeros(window_size / 2 + 1),
            sample_rate,
            decay: decay_for(sample_rate, hop),
            frames: 0,
            history: Ghost(Seq::empty()),
            hops: Ghost(0),
        };
        proof {
            assert(this@.levels =~= fresh_analysis(
                sample_rate@,
                num_channels as int,
                window_size as int,
            ).levels);
            assert(0 * (hop as int) == 0);
        }
        Some(this)
    }

    /// A well-formed analyser has sizes in range and one level for each bin.
    pub proof fn lemma_sizes(&self)
        requires
            self.wf(),
        ensures
            valid_sizes(self@.channels, self@.window_size),
            self@.levels.len() == self@.bins(),
            self@.frames <= u64::MAX,
    {
    }

    /// The number of samples in a frame.
    pub fn window_size(&self) -> (r: usize)
        ensures
            r == self@.window_size,
    {
        self.window_size
    }

    /// The number of bins in a published spectrum.
    pub fn num_bins(&self) -> (r: usize)
        requires
            self.wf(),
        ensures
            r == self@.bins(),
            r == self@.levels.len(),
    {
        self.levels.len()
    }

    /// The sample rate in hertz.
    pub fn sample_rate(&self) -> (r: Fixed)
        ensures
            r@ == self@.sample_rate,
    {
        self.sample_rate
    }

    /// Takes a new sample rate. Only the weight of the smoothing changes
    /// with it: samples, levels and frame count stay.
    pub fn set_sample_rate(&mut self, sample_rate: Fixed)
        requires
            old(self).wf(),
        ensures
            final(self).wf(),
            final(self)@ == (Analysis { sample_rate: sample_rate@, ..old(self)@ }),
    {
        self.sample_rate = sample_rate;
        self.decay = decay_for(sample_rate, self.hop);
    }

    /// Takes one sample into the ring and, when a hop is complete, returns
    /// the frame that ends with it.
    fn take_sample(&mut self, x: Fixed) -> (frame: Option<Vec<Fixed>>)
        requires
            old(self).wf(),
        ensures
            final(self).wf(),
            final(self)@ == (Analysis { history: old(self)@.history.push(x@), ..old(self)@ }),
            final(self).hop == old(self).hop,
            final(self).hops@ == old(self).hops@ + if frame.is_some() { 1int } else { 0int },
            frame.is_some() ==> final(self).since_frame == 0 && raws(frame.unwrap()@) == frame_of(
                final(self)@.history,
                final(self)@.window_size,
            ),
    {
        let n = self.window_size;
        let ghost h0 = self.history@;
        let ghost ring0 = self.ring@;
        let ghost pos0 = self.write_pos as int;
        self.ring.set(self.write_pos, x);
        self.write_pos = if self.write_pos + 1 == n { 0 } else { self.write_pos + 1 };
        self.history = Ghost(h0.push(x@));
        self.since_frame = self.since_frame + 1;
        proof {
            let h1 = h0.push(x@);
            let pos1 = self.write_pos as int;
            assert forall|k: int| 0 <= k < n implies self.ring@[#[trigger] slot(pos1, k, n as int)]@
                == sample_at(h1, h1.len() - n + k) by {
                if k == n - 1 {
                    assert(slot(pos1, k, n as int) == pos0);
                } else {
                    assert(slot(pos1, k, n as int) == slot(pos0, k + 1, n as int));
                    assert(ring0[slot(pos0, k + 1, n as int)]@ == sample_at(h0, h0.len() - n + (k + 1)));
                }
            }
        }
        if self.since_frame == self.hop {
            self.since_frame = 0;
            proof {
                let q = self.hops@;
                assert((q + 1) * (self.hop as int) == q * (self.hop as int) + self.hop)
                    by (nonlinear_arith);
                self.hops = Ghost(q + 1);
            }
            let mut frame: Vec<Fixed> = Vec::new();
            let mut k: usize = 0;
            while k < n
                invariant
                    k <= n,
                    n == self.window_size,
                    self.wf(),
                    frame@.len() == k,
                    forall|j: int|
                        0 <= j < k ==> (#[trigger] frame@[j])@ == fx_mul(
                            sample_at(self.history@, self.history@.len() - n + j),
                            hann_weight(j, n as int),
                        ),
                decreases n - k,
            {
                let room = n - self.write_pos;
                let at = if k < room { self.write_pos + k } else { k - room };
                assert(at == slot(self.write_pos as int, k as int, n as int));
                frame.push(self.ring[at].sat_mul(self.window[k]));
                k += 1;
            }
            proof {
                assert(raws(frame@) =~= frame_of(self.history@, n as int));
            }
            Some(frame)
        } else {
            None
        }
    }

    /// Takes a block of audio and returns the frames that it completes,
    /// oldest first, each ready for the Fourier transform. A block whose
    /// number of channels is not the analyser's is left out.
    pub fn process_buffer(&mut self, buffer: &Buffer) -> (frames: Vec<Vec<Fixed>>)
        requires
            old(self).wf(),
            buffer.wf(),
        ensures
            final(self).wf(),
            buffer@.len() != old(self)@.channels ==> final(self)@ == old(self)@ && frames@.len() == 0,
            buffer@.len() == old(self)@.channels ==> final(self)@ == (Analysis {
                history: old(self)@.history + mono(buffer@),
                ..old(self)@
            }) && grid(frames@) == frames_between(
                final(self)@.history,
                old(self)@.history.len() as int,
                old(self)@.window_size,
                old(self)@.hop(),
            ),
            forall|j: int|
                0 <= j < frames@.len() ==> (#[trigger] frames@[j])@.len() == old(self)@.window_size,
    {
        let mut frames: Vec<Vec<Fixed>> = Vec::new();
        if buffer.channels() != self.num_channels {
            return frames;
        }
        let samples = buffer.samples();
        let ghost h0 = self.history@;
        let ghost q0 = self.hops@;
        let ghost view0 = self@;
        let ghost hop = self.hop as int;
        let ghost n = self.window_size as int;
        let ghost feed = mono(buffer@);
        let mut i: usize = 0;
        proof {
            assert(h0 + feed.take(0) =~= h0);
        }
        while i < samples
            invariant
                i <= samples,
                samples == grid_samples(buffer@),
                buffer.wf(),
                1 <= buffer@.len(),
                feed == mono(buffer@),
                self.wf(),
                self.hop == hop,
                hop >= 1,
                n == view0.window_size,
                q0 >= 0,
                self@ == (Analysis { history: h0 + feed.take(i as int), ..view0 }),
                frames@.len() == self.hops@ - q0,
                self.hops@ * hop <= self.history@.len(),
                forall|j: int|
                    0 <= j < frames@.len() ==> raws((#[trigger] frames@[j])@) == frame_of(
                        self.history@.take((q0 + j + 1) * hop),
                        n,
                    ),
            decreases samples - i,
        {
            let ghost before = self.history@;
            let ghost q = self.hops@;
            let ghost got = frames@;
            let x = mean_at(buffer, i);
            let frame = self.take_sample(x);
            proof {
                let after = self.history@;
                assert(after == before.push(x@));
                assert(h0 + feed.take(i + 1) =~= (h0 + feed.take(i as int)).push(feed[i as int]));
                assert forall|j: int| 0 <= j < got.len() implies raws((#[trigger] got[j])@)
                    == frame_of(after.take((q0 + j + 1) * hop), n) by {
                    assert((q0 + j + 1) * hop <= q * hop) by (nonlinear_arith)
                        requires
                            q0 + j + 1 <= q,
                            hop >= 1,
                    ;
                    assert(after.take((q0 + j + 1) * hop) =~= before.take((q0 + j + 1) * hop));
                }
            }
            match frame {
                Some(f) => {
                    proof {
                        assert(self.hops@ * hop == self.history@.len());
                        assert(self.history@.take(self.history@.len() as int) =~= self.history@);
                        assert(q0 + got.len() + 1 == self.hops@);
                    }
                    frames.push(f);
                },
                None => {},
            }
            i += 1;
        }
        proof {
            assert(feed.take(samples as int) =~= feed);
            let h1 = self.history@;
            lemma_fundamental_div_mod_converse(h1.len() as int, hop, self.hops@, self.since_frame as int);
            lemma_fundamental_div_mod_converse(h0.len() as int, hop, q0, old(self).since_frame as int);
            assert(grid(frames@) =~= frames_between(h1, h0.len() as int, n, hop));
        }
        frames
    }

    /// Takes the Fourier transform of a frame, one value for each bin, and
    /// returns the smoothed spectrum with the next frame number. Without
    /// exactly one value for each bin the transform has failed, and every
    /// magnitude counts as zero.
    pub fn publish(&mut self, spectrum: &Vec<Complex>) -> (r: SpectrumFrame)
        requires
            old(self).wf(),
        ensures
            final(self).wf(),
            final(self)@ == (Analysis {
                levels: smoothed_levels(
                    old(self)@.levels,
                    norms(spectrum@),
                    smoothing_decay(old(self)@.sample_rate, old(self)@.hop()),
                ),
                frames: next_frame_id(old(self)@.frames),
                ..old(self)@
            }),
            r.id == final(self)@.frames,
            raws(r.bins@) == final(self)@.levels,
            r.bins@.len() == old(self)@.bins(),
    {
        let bins = self.levels.len();
        let given = spectrum.len() == bins;
        let ghost levels0 = raws(self.levels@);
        let ghost mags = settled(norms(spectrum@), bins as int);
        let mut out: Vec<Fixed> = Vec::new();
        let mut b: usize = 0;
        while b < bins
            invariant
                b <= bins,
                self.wf(),
                bins == self.levels@.len(),
                levels0.len() == bins,
                given == (spectrum@.len() == bins),
                mags == settled(norms(spectrum@), bins as int),
                out@.len() == b,
                self@ == (Analysis { levels: raws(self.levels@), ..old(self)@ }),
                self.decay == old(self).decay,
                forall|j: int|
                    0 <= j < b ==> (#[trigger] self.levels@[j])@ == peak_hold(
                        mags[j],
                        levels0[j],
                        self.decay@,
                    ),
                forall|j: int| 0 <= j < b ==> (#[trigger] out@[j])@ == self.levels@[j]@,
                forall|j: int| b <= j < bins ==> (#[trigger] self.levels@[j])@ == levels0[j],
            decreases bins - b,
        {
            let magnitude = if given { spectrum[b].norm() } else { Fixed::zero() };
            let level = self.levels[b];
            let fallen = level.sat_mul(self.decay).sat_add(
                magnitude.sat_mul(Fixed::one().sat_sub(self.decay)),
            );
            let held = magnitude.max(fallen);
            self.levels.set(b, held);
            out.push(held);
            b += 1;
        }
        if self.frames < u64::MAX {
            self.frames = self.frames + 1;
        }
        proof {
            assert(raws(self.levels@) =~= smoothed_levels(levels0, norms(spectrum@), self.decay@));
            assert(raws(out@) =~= raws(self.levels@));
        }
        SpectrumFrame { id: self.frames, bins: out }
    }
}

/// A published spectrum: the level of every bin, and the number of the frame
/// it was made from.
#[derive(Clone, Debug)]
pub struct SpectrumFrame {
    pub id: u64,
    pub bins: Vec<Fixed>,
}

impl SpectrumFrame {
    /// The frequency in hertz that a bin stands for:
    /// `bin * sample_rate / number of bins`.
    pub fn frequency_of(&self, bin: usize, sample_rate: Fixed) -> (r: Fixed)
        requires
            bin < self.bins@.len(),
        ensures
            r@ == sat(quot(bin * sample_rate@, self.bins@.len() as int)),
    {
        let n: i128 = self.bins.len() as i128;
        let b: i128 = bin as i128;
        let s: i128 = sample_rate.raw as i128;
        assert(-0x8000_0000_0000_0000 * 0xffff_ffff_ffff_ffff <= b * s
            <= 0x8000_0000_0000_0000 * 0xffff_ffff_ffff_ffff) by (nonlinear_arith)
            requires
                0 <= b <= 0xffff_ffff_ffff_ffff,
                -0x8000_0000_0000_0000 <= s <= 0x7fff_ffff_ffff_ffff,
        ;
        Fixed::from_wide((b * s) / n)
    }
}

/// A level never lies below the magnitude just taken. While the magnitude
/// is below the old level, and the weight of the old level lies between
/// zero and one, the new level lies between the two: it rises at once and
/// falls by degrees.
pub proof fn lemma_peak_hold_bounds(magnitude: int, level: int, decay: int)
    requires
        0 <= magnitude <= i64::MAX,
        0 <= level <= i64::MAX,
        0 <= decay <= SCALE,
    ensures
        peak_hold(magnitude, level, decay) >= magnitude,
        magnitude <= level ==> peak_hold(magnitude, level, decay) <= level,
        magnitude >= level ==> peak_hold(magnitude, level, decay) == magnitude,
{
    lemma_smooth_between(level, magnitude, decay);
}

/// Silence leaves a silent spectrum silent.
pub proof fn lemma_silence_keeps_silence(decay: int)
    ensures
        peak_hold(0, 0, decay) == 0,
{
    lemma_product_with_zero(decay);
    lemma_product_with_zero(fx_sub(SCALE as int, decay));
}

/// Frame numbers never go back, and go up as long as there is a next one.
pub proof fn lemma_frame_ids_ascend(id: int)
    ensures
        next_frame_id(id) >= id,
        id < u64::MAX ==> next_frame_id(id) == id + 1,
{
}

/// Whether `ids` are the numbers of frames published one after another.
pub open spec fn successive_ids(ids: Seq<int>) -> bool {
    forall|k: int| 0 <= k < ids.len() - 1 ==> #[trigger] ids[k + 1] == next_frame_id(ids[k])
}

/// A reader that takes the published frames in their order, skipping some
/// and seeing some twice, never sees a frame number below one it has seen:
/// of two frames the one published later has the higher number, or the
/// same.
pub proof fn lemma_later_frames_have_later_ids(ids: Seq<int>, earlier: int, later: int)
    requires
        successive_ids(ids),
        0 <= earlier <= later < ids.len(),
    ensures
        ids[earlier] <= ids[later],
    decreases later - earlier,
{
    if earlier < later {
        lemma_later_frames_have_later_ids(ids, earlier, later - 1);
        assert(ids[later - 1 + 1] == next_frame_id(ids[later - 1]));
    }
}

} // verus!
