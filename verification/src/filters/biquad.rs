//! A second-order filter section in transposed direct form II.

use vstd::prelude::*;
use crate::fixed::{fx_add, fx_mul, fx_sub, lemma_product_with_zero, Fixed};
use crate::filters::coefficients::{FilterCoefficients, Taps};

verus! {

/// The raw values of the two delay registers.
pub struct Registers {
    pub s1: int,
    pub s2: int,
}

/// Coefficients and delay registers of a section, as raw values.
pub struct Section {
    pub taps: Taps,
    pub regs: Registers,
}

/// The output for input `x`: `b0 * x + s1`.
pub open spec fn section_out(s: Section, x: int) -> int {
    fx_add(fx_mul(s.taps.b0, x), s.regs.s1)
}

/// The section after input `x`:
/// `s1' = s2 + b1 * x - a1 * out` and `s2' = b2 * x - a2 * out`.
pub open spec fn section_next(s: Section, x: int) -> Section {
    let out = section_out(s, x);
    Section {
        taps: s.taps,
        regs: Registers {
            s1: fx_sub(fx_add(s.regs.s2, fx_mul(s.taps.b1, x)), fx_mul(s.taps.a1, out)),
            s2: fx_sub(fx_mul(s.taps.b2, x), fx_mul(s.taps.a2, out)),
        },
    }
}

/// The section after the inputs `xs`, fed in order.
pub open spec fn section_after(s: Section, xs: Seq<int>) -> Section
    decreases xs.len(),
{
    if xs.len() == 0 {
        s
    } else {
        section_next(section_after(s, xs.drop_last()), xs.last())
    }
}

/// The outputs for the inputs `xs`, fed in order.
pub open spec fn section_run(s: Section, xs: Seq<int>) -> Seq<int> {
    Seq::new(xs.len(), |i: int| section_out(section_after(s, xs.take(i)), xs[i]))
}

/// Whether both delay registers hold zero.
pub open spec fn at_rest(s: Section) -> bool {
    s.regs.s1 == 0 && s.regs.s2 == 0
}

/// A biquad filter section.
#[derive(Clone, Copy, Debug)]
pub struct Biquad {
    pub s1: Fixed,
    pub s2: Fixed,
    pub coefficients: FilterCoefficients,
}

impl View for Biquad {
    type V = Section;

    open spec fn view(&self) -> Section {
        Section { taps: self.coefficients@, regs: Registers { s1: self.s1@, s2: self.s2@ } }
    }
}

impl Default for Biquad {
    /// A section at rest with all coefficients zero.
    fn default() -> (r: Biquad)
        ensures
            at_rest(r@),
            r@.taps == (Taps { b0: 0, b1: 0, b2: 0, a0: 0, a1: 0, a2: 0 }),
    {
        Biquad { s1: Fixed::zero(), s2: Fixed::zero(), coefficients: FilterCoefficients::default() }
    }
}

impl Biquad {
    /// Filters one sample and advances the delay registers.
    pub fn process(&mut self, sample: Fixed) -> (out: Fixed)
        ensures
            out@ == section_out(old(self)@, sample@),
            final(self)@ == section_next(old(self)@, sample@),
    {
        let out = self.coefficients.b0.sat_mul(sample).sat_add(self.s1);
        self.s1 = self.s2.sat_add(self.coefficients.b1.sat_mul(sample)).sat_sub(
            self.coefficients.a1.sat_mul(out),
        );
        self.s2 = self.coefficients.b2.sat_mul(sample).sat_sub(self.coefficients.a2.sat_mul(out));
        out
    }

    /// Clears the delay registers and keeps the coefficients.
    pub fn reset(&mut self)
        ensures
            at_rest(final(self)@),
            final(self)@.taps == old(self)@.taps,
    {
        self.s1 = Fixed::zero();
        self.s2 = Fixed::zero();
    }
}

/// A section at rest stays at rest on a zero input and puts out zero.
pub proof fn lemma_silent_step(s: Section)
    requires
        at_rest(s),
    ensures
        section_out(s, 0) == 0,
        at_rest(section_next(s, 0)),
{
    lemma_product_with_zero(s.taps.b0);
    lemma_product_with_zero(s.taps.b1);
    lemma_product_with_zero(s.taps.b2);
    lemma_product_with_zero(s.taps.a1);
    lemma_product_with_zero(s.taps.a2);
}

/// Silence in, silence out: a section at rest that is fed zeros puts out
/// zeros only and is at rest afterwards, whatever its coefficients.
pub proof fn lemma_silence_in_silence_out(s: Section, xs: Seq<int>)
    requires
        at_rest(s),
        forall|i: int| 0 <= i < xs.len() ==> xs[i] == 0,
    ensures
        at_rest(section_after(s, xs)),
        section_run(s, xs).len() == xs.len(),
        forall|i: int| 0 <= i < xs.len() ==> section_run(s, xs)[i] == 0,
    decreases xs.len(),
{
    if xs.len() > 0 {
        lemma_silence_in_silence_out(s, xs.drop_last());
        lemma_silent_step(section_after(s, xs.drop_last()));
    }
    assert forall|i: int| 0 <= i < xs.len() implies section_run(s, xs)[i] == 0 by {
        lemma_silence_in_silence_out(s, xs.take(i));
        lemma_silent_step(section_after(s, xs.take(i)));
    }
}

} // verus!
