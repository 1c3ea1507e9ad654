//! Decimal fixed-point numbers with nine fractional digits.
//!
//! A [`Fixed`] stores a value `v` as the integer `v * 10^9`. Sums, products
//! and quotients are rounded toward zero and saturate at the ends of the
//! `i64` range.

use vstd::prelude::*;

verus! {

/// Raw units per 1.0.
pub const SCALE: i64 = 1_000_000_000;

/// The nearest representable raw value to `x`.
pub open spec fn sat(x: int) -> int {
    if x < i64::MIN {
        i64::MIN as int
    } else if x > i64::MAX {
        i64::MAX as int
    } else {
        x
    }
}

/// Magnitude of an integer.
pub open spec fn mag(x: int) -> int {
    if x < 0 {
        -x
    } else {
        x
    }
}

/// Quotient of `a` by `b`, rounded toward zero. Meaningful for `b != 0`.
pub open spec fn quot(a: int, b: int) -> int {
    if (a >= 0) == (b > 0) {
        mag(a) / mag(b)
    } else {
        -(mag(a) / mag(b))
    }
}

/// Raw sum of two raw values.
pub open spec fn fx_add(a: int, b: int) -> int {
    sat(a + b)
}

/// Raw difference of two raw values.
pub open spec fn fx_sub(a: int, b: int) -> int {
    sat(a - b)
}

/// Raw negation of a raw value.
pub open spec fn fx_neg(a: int) -> int {
    sat(-a)
}

/// Raw magnitude of a raw value.
pub open spec fn fx_abs(a: int) -> int {
    sat(mag(a))
}

/// Raw product of two raw values: `a * b / 10^9`, rounded toward zero.
pub open spec fn fx_mul(a: int, b: int) -> int {
    sat(quot(a * b, SCALE as int))
}

/// Raw quotient of two raw values: `a * 10^9 / b`, rounded toward zero.
/// Division by zero saturates in the direction of the dividend's sign.
pub open spec fn fx_div(a: int, b: int) -> int {
    if b == 0 {
        if a > 0 {
            i64::MAX as int
        } else if a < 0 {
            i64::MIN as int
        } else {
            0
        }
    } else {
        sat(quot(a * SCALE, b))
    }
}

/// `x` limited to the closed interval from `lo` to `hi`.
pub open spec fn clamp_between(x: int, lo: int, hi: int) -> int {
    if x < lo {
        lo
    } else if x > hi {
        hi
    } else {
        x
    }
}

/// A signed decimal fixed-point number.
#[derive(Clone, Copy, Debug, PartialEq, Eq, Structural)]
pub struct Fixed {
    /// The value in billionths.
    pub raw: i64,
}

impl View for Fixed {
    type V = int;

    open spec fn view(&self) -> int {
        self.raw as int
    }
}

/// The raw values of a run of numbers.
pub open spec fn raws(samples: Seq<Fixed>) -> Seq<int> {
    Seq::new(samples.len(), |i: int| samples[i]@)
}

fn narrow(x: i128) -> (r: i64)
    ensures
        r as int == sat(x as int),
{
    if x < -0x8000_0000_0000_0000 {
        -0x8000_0000_0000_0000
    } else if x > 0x7fff_ffff_ffff_ffff {
        0x7fff_ffff_ffff_ffff
    } else {
        x as i64
    }
}

impl Fixed {
    /// The number whose raw value is `raw`.
    pub fn from_raw(raw: i64) -> (r: Fixed)
        ensures
            r@ == raw,
    {
        Fixed { raw }
    }

    /// The nearest number to the raw value `wide`.
    pub fn from_wide(wide: i128) -> (r: Fixed)
        ensures
            r@ == sat(wide as int),
    {
        Fixed { raw: narrow(wide) }
    }

    /// The quotient of two wide integers, rounded toward zero, as the
    /// nearest raw value.
    pub fn from_ratio(num: i128, den: i128) -> (r: Fixed)
        requires
            den != 0,
            num > i128::MIN,
            den > i128::MIN,
        ensures
            r@ == sat(quot(num as int, den as int)),
    {
        let na: i128 = if num < 0 { -num } else { num };
        let da: i128 = if den < 0 { -den } else { den };
        let q: i128 = na / da;
        let signed: i128 = if (num >= 0) == (den > 0) { q } else { -q };
        Fixed { raw: narrow(signed) }
    }

    /// The whole number `n`.
    pub fn from_int(n: i32) -> (r: Fixed)
        ensures
            r@ == n * SCALE,
    {
        Fixed { raw: (n as i64) * SCALE }
    }

    /// Zero.
    pub fn zero() -> (r: Fixed)
        ensures
            r@ == 0,
    {
        Fixed { raw: 0 }
    }

    /// One.
    pub fn one() -> (r: Fixed)
        ensures
            r@ == SCALE,
    {
        Fixed { raw: SCALE }
    }

    /// The raw value.
    pub fn to_raw(self) -> (r: i64)
        ensures
            r == self@,
    {
        self.raw
    }

    /// Saturating sum.
    pub fn sat_add(self, rhs: Fixed) -> (r: Fixed)
        ensures
            r@ == fx_add(self@, rhs@),
    {
        Fixed { raw: narrow(self.raw as i128 + rhs.raw as i128) }
    }

    /// Saturating difference.
    pub fn sat_sub(self, rhs: Fixed) -> (r: Fixed)
        ensures
            r@ == fx_sub(self@, rhs@),
    {
        Fixed { raw: narrow(self.raw as i128 - rhs.raw as i128) }
    }

    /// Saturating negation.
    pub fn sat_neg(self) -> (r: Fixed)
        ensures
            r@ == fx_neg(self@),
    {
        Fixed { raw: narrow(-(self.raw as i128)) }
    }

    /// Saturating magnitude.
    pub fn abs(self) -> (r: Fixed)
        ensures
            r@ == fx_abs(self@),
    {
        if self.raw < 0 {
            Fixed { raw: narrow(-(self.raw as i128)) }
        } else {
            self
        }
    }

    /// Saturating product, rounded toward zero.
    pub fn sat_mul(self, rhs: Fixed) -> (r: Fixed)
        ensures
            r@ == fx_mul(self@, rhs@),
    {
        let a: i128 = self.raw as i128;
        let b: i128 = rhs.raw as i128;
        assert(-0x4000_0000_0000_0000_0000_0000_0000_0000 <= a * b
            <= 0x4000_0000_0000_0000_0000_0000_0000_0000) by (nonlinear_arith)
            requires
                -0x8000_0000_0000_0000 <= a <= 0x7fff_ffff_ffff_ffff,
                -0x8000_0000_0000_0000 <= b <= 0x7fff_ffff_ffff_ffff,
        ;
        let p: i128 = a * b;
        Fixed { raw: narrow(p / 1_000_000_000) }
    }

    /// Saturating quotient, rounded toward zero. A zero divisor gives the
    /// largest value of the dividend's sign, and zero for a zero dividend.
    pub fn sat_div(self, rhs: Fixed) -> (r: Fixed)
        ensures
            r@ == fx_div(self@, rhs@),
    {
        if rhs.raw == 0 {
            if self.raw > 0 {
                Fixed { raw: 0x7fff_ffff_ffff_ffff }
            } else if self.raw < 0 {
                Fixed { raw: -0x8000_0000_0000_0000 }
            } else {
                Fixed { raw: 0 }
            }
        } else {
            let n: i128 = (self.raw as i128) * 1_000_000_000;
            let d: i128 = rhs.raw as i128;
            let na: i128 = if n < 0 { -n } else { n };
            let da: i128 = if d < 0 { -d } else { d };
            let q: i128 = na / da;
            let signed: i128 = if (n >= 0) == (d > 0) { q } else { -q };
            Fixed { raw: narrow(signed) }
        }
    }

    /// Quotient by a whole number, rounded toward zero.
    pub fn div_int(self, k: i64) -> (r: Fixed)
        requires
            k > 0,
        ensures
            r@ == quot(self@, k as int),
    {
        Fixed { raw: self.raw / k }
    }

    /// Whether `self` is strictly below `rhs`.
    pub fn lt(self, rhs: Fixed) -> (r: bool)
        ensures
            r == (self@ < rhs@),
    {
        self.raw < rhs.raw
    }

    /// The larger of two numbers.
    pub fn max(self, rhs: Fixed) -> (r: Fixed)
        ensures
            r@ == if self@ >= rhs@ { self@ } else { rhs@ },
    {
        if self.raw >= rhs.raw {
            self
        } else {
            rhs
        }
    }

    /// `self` limited to the closed interval from `lo` to `hi`.
    pub fn clamp(self, lo: Fixed, hi: Fixed) -> (r: Fixed)
        ensures
            r@ == clamp_between(self@, lo@, hi@),
    {
        if self.raw < lo.raw {
            lo
        } else if self.raw > hi.raw {
            hi
        } else {
            self
        }
    }
}

/// A quotient by a whole number of at least one is no larger in magnitude
/// than the dividend, and has its sign or is zero.
pub proof fn lemma_quot_bounded(a: int, b: int)
    requires
        b >= 1,
    ensures
        mag(quot(a, b)) <= mag(a),
        a >= 0 ==> quot(a, b) >= 0,
        a <= 0 ==> quot(a, b) <= 0,
{
    let m = mag(a);
    assert(0 <= m / b <= m) by (nonlinear_arith)
        requires
            0 <= m,
            b >= 1,
    ;
}

/// A product with zero is zero.
pub proof fn lemma_product_with_zero(a: int)
    ensures
        fx_mul(a, 0) == 0,
        fx_mul(0, a) == 0,
{
    assert(a * 0 == 0 && 0 * a == 0) by (nonlinear_arith);
}

/// A product with one is the other factor.
pub proof fn lemma_product_with_one(a: int)
    requires
        i64::MIN <= a <= i64::MAX,
    ensures
        fx_mul(a, SCALE as int) == a,
        fx_mul(SCALE as int, a) == a,
{
    let s = SCALE as int;
    assert(a * s == s * a && mag(a * s) == mag(a) * s && (mag(a) * s) / s == mag(a)
        && (a * s >= 0) == (a >= 0 || a * s == 0)) by (nonlinear_arith)
        requires
            s == 1_000_000_000,
    ;
}

/// Rounding toward zero never grows a product: scaled by `SCALE`, the
/// magnitude of a raw product is at most the exact product of the
/// magnitudes.
pub proof fn lemma_product_magnitude(a: int, b: int)
    ensures
        mag(fx_mul(a, b)) * SCALE <= mag(a) * mag(b),
{
    let s = SCALE as int;
    let p = a * b;
    assert(mag(p) == mag(a) * mag(b)) by (nonlinear_arith)
        requires
            p == a * b,
    ;
    let m = mag(p);
    assert((m / s) * s <= m) by (nonlinear_arith)
        requires
            0 <= m,
            s == 1_000_000_000,
    ;
    let q = quot(p, s);
    assert(mag(q) == m / s);
    assert(mag(sat(q)) <= mag(q));
    assert(mag(sat(q)) * s <= mag(q) * s) by (nonlinear_arith)
        requires
            0 <= mag(sat(q)) <= mag(q),
            s > 0,
    ;
}

} // verus!
