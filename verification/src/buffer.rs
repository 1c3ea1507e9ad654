//! A block of audio: one run of samples per channel, all of one length.

use vstd::prelude::*;
use crate::fixed::{raws, Fixed};

verus! {

/// Whether all rows have the length of the first.
pub open spec fn rectangular(rows: Seq<Vec<Fixed>>) -> bool {
    forall|c: int| 0 <= c < rows.len() ==> (#[trigger] rows[c])@.len() == rows[0]@.len()
}

/// The raw values of the rows.
pub open spec fn grid(rows: Seq<Vec<Fixed>>) -> Seq<Seq<int>> {
    Seq::new(rows.len(), |c: int| raws(rows[c]@))
}

/// The number of samples in each channel of a grid; zero without channels.
pub open spec fn grid_samples(g: Seq<Seq<int>>) -> int {
    if g.len() == 0 {
        0
    } else {
        g[0].len() as int
    }
}

/// The `i`-th sample of every channel of a grid, in channel order.
pub open spec fn column(g: Seq<Seq<int>>, i: int) -> Seq<int> {
    Seq::new(g.len(), |c: int| g[c][i])
}

/// A block of audio samples, channel by channel.
pub struct Buffer {
    channels: Vec<Vec<Fixed>>,
}

impl View for Buffer {
    type V = Seq<Seq<int>>;

    closed spec fn view(&self) -> Seq<Seq<int>> {
        grid(self.channels@)
    }
}

impl Buffer {
    /// Whether all channels have one length. Every block that this module
    /// hands out is well formed.
    pub closed spec fn wf(&self) -> bool {
        rectangular(self.channels@)
    }

    /// The block that holds the given channels, if they all have one length.
    pub fn from_channels(channels: Vec<Vec<Fixed>>) -> (r: Option<Buffer>)
        ensures
            r.is_some() == rectangular(channels@),
            r.is_some() ==> r.unwrap()@ == grid(channels@) && r.unwrap().wf(),
    {
        let n = channels.len();
        let mut c: usize = 0;
        while c < n
            invariant
                c <= n,
                n == channels@.len(),
                forall|k: int| 0 <= k < c ==> (#[trigger] channels@[k])@.len() == channels@[0]@.len(),
            decreases n - c,
        {
            if channels[c].len() != channels[0].len() {
                return None;
            }
            c += 1;
        }
        Some(Buffer { channels })
    }

    /// The number of channels.
    pub fn channels(&self) -> (r: usize)
        ensures
            r == self@.len(),
    {
        self.channels.len()
    }

    /// The number of samples in each channel.
    pub fn samples(&self) -> (r: usize)
        requires
            self.wf(),
        ensures
            r == grid_samples(self@),
            forall|c: int| 0 <= c < self@.len() ==> (#[trigger] self@[c]).len() == r,
    {
        if self.channels.len() == 0 {
            0
        } else {
            self.channels[0].len()
        }
    }

    /// The `i`-th sample of channel `c`.
    pub fn get(&self, c: usize, i: usize) -> (r: Fixed)
        requires
            self.wf(),
            c < self@.len(),
            i < grid_samples(self@),
        ensures
            r@ == self@[c as int][i as int],
    {
        self.channels[c][i]
    }

    /// Replaces the `i`-th sample of channel `c`.
    pub fn set(&mut self, c: usize, i: usize, v: Fixed)
        requires
            old(self).wf(),
            c < old(self)@.len(),
            i < grid_samples(old(self)@),
        ensures
            final(self).wf(),
            final(self)@ == old(self)@.update(c as int, old(self)@[c as int].update(i as int, v@)),
    {
        self.channels[c].set(i, v);
        proof {
            assert(self@ =~~= old(self)@.update(c as int, old(self)@[c as int].update(i as int, v@)));
        }
    }

    /// The channels, given back.
    pub fn into_channels(self) -> (r: Vec<Vec<Fixed>>)
        requires
            self.wf(),
        ensures
            grid(r@) == self@,
            rectangular(r@),
    {
        self.channels
    }
}

} // verus!
