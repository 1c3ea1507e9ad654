//! Elementary functions on fixed-point numbers: cosine and sine of an angle
//! given in turns, and the exponential of a non-positive argument.
//!
//! Each function is a short alternating power series evaluated by Horner's
//! rule after the argument has been reduced to a small interval. The series
//! are what the contracts state; their results stay in the range of the
//! function they stand for.

use vstd::prelude::*;
use crate::fixed::{fx_mul, fx_sub, quot, sat, Fixed, SCALE};

verus! {

/// Raw value of a full turn in radians, `2 * pi`.
pub const TAU: i64 = 6_283_185_307;

/// Raw value of a quarter turn.
pub const QUARTER: i64 = 250_000_000;

/// One step of Horner's rule for an alternating series: `1 - y * u / k`.
pub open spec fn horner(y: int, u: int, k: int) -> int {
    fx_sub(SCALE as int, quot(fx_mul(y, u), k))
}

/// `cos(x)` from `y = x * x`, through the term in `x^12`.
pub open spec fn cos_series(y: int) -> int {
    horner(y, horner(y, horner(y, horner(y, horner(y, horner(y, SCALE as int, 132), 90), 56), 30), 12), 2)
}

/// `sin(x)` from `x` and `y = x * x`, through the term in `x^11`.
pub open spec fn sin_series(x: int, y: int) -> int {
    fx_mul(x, horner(y, horner(y, horner(y, horner(y, horner(y, SCALE as int, 110), 72), 42), 20), 6))
}

/// `exp(-z)` through the term in `z^10`.
pub open spec fn exp_series(z: int) -> int {
    horner(z, horner(z, horner(z, horner(z, horner(z,
        horner(z, horner(z, horner(z, horner(z, horner(z, SCALE as int, 10), 9), 8), 7), 6),
        5), 4), 3), 2), 1)
}

/// Cosine of `q` turns for `q` in the first eighth of a turn.
pub open spec fn cos_octant(q: int) -> int {
    let x = fx_mul(q, TAU as int);
    cos_series(fx_mul(x, x))
}

/// Sine of `q` turns for `q` in the first eighth of a turn.
pub open spec fn sin_octant(q: int) -> int {
    let x = fx_mul(q, TAU as int);
    sin_series(x, fx_mul(x, x))
}

/// Cosine of `q` turns for `q` in the first quarter of a turn.
pub open spec fn cos_quadrant(q: int) -> int {
    if q <= QUARTER / 2 {
        cos_octant(q)
    } else {
        sin_octant(QUARTER - q)
    }
}

/// Cosine of `r` turns for `r` in the first turn.
pub open spec fn cos_first_turn(r: int) -> int {
    let h = if r > 2 * QUARTER { SCALE - r } else { r };
    if h > QUARTER {
        -cos_quadrant(2 * QUARTER - h)
    } else {
        cos_quadrant(h)
    }
}

/// Cosine of an angle of `t` turns.
pub open spec fn spec_cos_turns(t: int) -> int {
    cos_first_turn(t % (SCALE as int))
}

/// Sine of an angle of `t` turns.
pub open spec fn spec_sin_turns(t: int) -> int {
    cos_first_turn((t % (SCALE as int) + 3 * QUARTER) % (SCALE as int))
}

/// `exp(-x)`: one for `x <= 0`, the series for `x <= 1/2`, and the square of
/// `exp(-x/2)` beyond.
pub open spec fn spec_exp_neg(x: int) -> int
    decreases x,
{
    if x <= 0 {
        SCALE as int
    } else if x <= SCALE / 2 {
        exp_series(x)
    } else {
        let h = spec_exp_neg(x / 2);
        fx_mul(h, h)
    }
}

/// Whether `r` is the square root of `x`, rounded down.
pub open spec fn is_sqrt_floor(x: int, r: int) -> bool {
    r >= 0 && r * r <= x < (r + 1) * (r + 1)
}

/// The square root of `x`, rounded down. Meaningful for `x >= 0`.
pub open spec fn sqrt_floor(x: int) -> int {
    choose|r: int| is_sqrt_floor(x, r)
}

/// The raw length of the vector with the raw components `re` and `im`:
/// `sqrt(re^2 + im^2)`, rounded down.
pub open spec fn spec_hypot(re: int, im: int) -> int {
    sat(sqrt_floor(re * re + im * im))
}

/// There is only one rounded-down square root.
pub proof fn lemma_sqrt_floor_unique(x: int, r: int)
    requires
        is_sqrt_floor(x, r),
    ensures
        sqrt_floor(x) == r,
{
    let c = sqrt_floor(x);
    assert(is_sqrt_floor(x, c));
    assert(c == r) by (nonlinear_arith)
        requires
            c >= 0,
            r >= 0,
            c * c <= x < (c + 1) * (c + 1),
            r * r <= x < (r + 1) * (r + 1),
    ;
}

/// A product of two fractions is a fraction.
pub proof fn lemma_unit_product(a: int, b: int)
    requires
        0 <= a <= SCALE,
        0 <= b <= SCALE,
    ensures
        0 <= fx_mul(a, b) <= a,
        fx_mul(a, b) <= b,
{
    assert(0 <= a * b <= a * SCALE && a * b <= b * SCALE) by (nonlinear_arith)
        requires
            0 <= a <= SCALE,
            0 <= b <= SCALE,
    ;
    assert((a * b) / (SCALE as int) <= a && (a * b) / (SCALE as int) <= b && 0 <= (a * b) / (
    SCALE as int)) by (nonlinear_arith)
        requires
            0 <= a * b <= a * SCALE,
            a * b <= b * SCALE,
            SCALE == 1_000_000_000,
    ;
}

/// A Horner step on fractions gives a fraction.
pub proof fn lemma_horner_unit(y: int, u: int, k: int)
    requires
        0 <= y <= SCALE,
        0 <= u <= SCALE,
        k >= 1,
    ensures
        0 <= horner(y, u, k) <= SCALE,
{
    lemma_unit_product(y, u);
    let p = fx_mul(y, u);
    assert(0 <= p / k <= p) by (nonlinear_arith)
        requires
            0 <= p,
            k >= 1,
    ;
}

/// The exponential series lies between the first two and the first three
/// terms of the exponential: `1 - z <= exp(-z) <= 1 - z + z^2/2`, the upper
/// bound up to one raw unit of rounding, and both sides of it scaled by
/// `2 * SCALE`.
pub proof fn lemma_exp_series_between(z: int)
    requires
        0 <= z <= SCALE,
    ensures
        SCALE - z <= exp_series(z) <= SCALE,
        2 * SCALE * exp_series(z) <= 2 * SCALE * SCALE - 2 * SCALE * z + z * z + 2 * SCALE,
{
    let s = SCALE as int;
    let u1 = horner(z, s, 10);
    lemma_horner_unit(z, s, 10);
    let u2 = horner(z, u1, 9);
    lemma_horner_unit(z, u1, 9);
    let u3 = horner(z, u2, 8);
    lemma_horner_unit(z, u2, 8);
    let u4 = horner(z, u3, 7);
    lemma_horner_unit(z, u3, 7);
    let u5 = horner(z, u4, 6);
    lemma_horner_unit(z, u4, 6);
    let u6 = horner(z, u5, 5);
    lemma_horner_unit(z, u5, 5);
    let u7 = horner(z, u6, 4);
    lemma_horner_unit(z, u6, 4);
    let u8 = horner(z, u7, 3);
    lemma_horner_unit(z, u7, 3);
    let u9 = horner(z, u8, 2);
    lemma_horner_unit(z, u8, 2);
    lemma_horner_unit(z, u9, 1);
    // the last but one step takes at most half of z off one
    lemma_unit_product(z, u8);
    let half = fx_mul(z, u8) / 2;
    assert(u9 == s - half);
    assert(2 * half <= z);
    // the last step takes z times that off one
    lemma_unit_product(z, u9);
    let p = z * u9;
    let taken = fx_mul(z, u9);
    assert(taken == p / s);
    assert(taken / 1 == taken) by (nonlinear_arith);
    assert(quot(taken, 1) == taken);
    assert(exp_series(z) == s - taken);
    let zh = z * half;
    assert(p == z * s - zh && 0 <= 2 * zh <= z * z && p >= 0) by (nonlinear_arith)
        requires
            p == z * u9,
            zh == z * half,
            u9 == s - half,
            0 <= 2 * half <= z,
            0 <= u9,
            0 <= z,
            s > 0,
    ;
    assert(2 * s * (p / s) >= 2 * p - 2 * s) by (nonlinear_arith)
        requires
            p >= 0,
            s == 1_000_000_000,
    ;
    let q = p / s;
    assert(2 * s * (s - q) == 2 * s * s - 2 * s * q) by (nonlinear_arith);
    assert(2 * (z * s) == 2 * s * z) by (nonlinear_arith);
}

/// The cosine series of a fraction is a fraction.
pub proof fn lemma_cos_series_unit(y: int)
    requires
        0 <= y <= SCALE,
    ensures
        0 <= cos_series(y) <= SCALE,
{
    let u1 = horner(y, SCALE as int, 132);
    lemma_horner_unit(y, SCALE as int, 132);
    let u2 = horner(y, u1, 90);
    lemma_horner_unit(y, u1, 90);
    let u3 = horner(y, u2, 56);
    lemma_horner_unit(y, u2, 56);
    let u4 = horner(y, u3, 30);
    lemma_horner_unit(y, u3, 30);
    let u5 = horner(y, u4, 12);
    lemma_horner_unit(y, u4, 12);
    lemma_horner_unit(y, u5, 2);
}

/// The sine series of a fraction lies between zero and its argument.
pub proof fn lemma_sin_series_unit(x: int, y: int)
    requires
        0 <= x <= SCALE,
        0 <= y <= SCALE,
    ensures
        0 <= sin_series(x, y) <= x,
{
    let u1 = horner(y, SCALE as int, 110);
    lemma_horner_unit(y, SCALE as int, 110);
    let u2 = horner(y, u1, 72);
    lemma_horner_unit(y, u1, 72);
    let u3 = horner(y, u2, 42);
    lemma_horner_unit(y, u2, 42);
    let u4 = horner(y, u3, 20);
    lemma_horner_unit(y, u3, 20);
    let u5 = horner(y, u4, 6);
    lemma_horner_unit(y, u4, 6);
    lemma_unit_product(x, u5);
}

/// The exponential series of a fraction is a fraction.
pub proof fn lemma_exp_series_unit(z: int)
    requires
        0 <= z <= SCALE,
    ensures
        0 <= exp_series(z) <= SCALE,
{
    let u1 = horner(z, SCALE as int, 10);
    lemma_horner_unit(z, SCALE as int, 10);
    let u2 = horner(z, u1, 9);
    lemma_horner_unit(z, u1, 9);
    let u3 = horner(z, u2, 8);
    lemma_horner_unit(z, u2, 8);
    let u4 = horner(z, u3, 7);
    lemma_horner_unit(z, u3, 7);
    let u5 = horner(z, u4, 6);
    lemma_horner_unit(z, u4, 6);
    let u6 = horner(z, u5, 5);
    lemma_horner_unit(z, u5, 5);
    let u7 = horner(z, u6, 4);
    lemma_horner_unit(z, u6, 4);
    let u8 = horner(z, u7, 3);
    lemma_horner_unit(z, u7, 3);
    let u9 = horner(z, u8, 2);
    lemma_horner_unit(z, u8, 2);
    lemma_horner_unit(z, u9, 1);
}

/// An eighth of a turn is less than one radian, and so is its square.
pub proof fn lemma_octant_angle(q: int)
    requires
        0 <= q <= QUARTER / 2,
    ensures
        0 <= fx_mul(q, TAU as int) <= SCALE,
        0 <= fx_mul(fx_mul(q, TAU as int), fx_mul(q, TAU as int)) <= SCALE,
{
    let x = fx_mul(q, TAU as int);
    let p = q * (TAU as int);
    assert(0 <= p <= 785_398_163_375_000_000) by (nonlinear_arith)
        requires
            p == q * (TAU as int),
            0 <= q <= 125_000_000,
            TAU == 6_283_185_307,
    ;
    assert(x == p / 1_000_000_000);
    lemma_unit_product(x, x);
}

/// Cosine and sine on the first eighth of a turn are fractions.
pub proof fn lemma_octant_unit(q: int)
    requires
        0 <= q <= QUARTER / 2,
    ensures
        0 <= cos_octant(q) <= SCALE,
        0 <= sin_octant(q) <= SCALE,
{
    lemma_octant_angle(q);
    let x = fx_mul(q, TAU as int);
    lemma_cos_series_unit(fx_mul(x, x));
    lemma_sin_series_unit(x, fx_mul(x, x));
}

/// The cosine of any angle lies between minus one and one.
pub proof fn lemma_cos_turns_bounded(t: int)
    ensures
        -SCALE <= spec_cos_turns(t) <= SCALE,
{
    let r = t % (SCALE as int);
    let h = if r > 2 * QUARTER { SCALE - r } else { r };
    let q = if h > QUARTER { 2 * QUARTER - h } else { h };
    if q <= QUARTER / 2 {
        lemma_octant_unit(q);
    } else {
        lemma_octant_unit(QUARTER - q);
    }
}

/// The sine of any angle lies between minus one and one.
pub proof fn lemma_sin_turns_bounded(t: int)
    ensures
        -SCALE <= spec_sin_turns(t) <= SCALE,
{
    let r = (t % (SCALE as int) + 3 * QUARTER) % (SCALE as int);
    lemma_cos_turns_bounded(r);
}

/// `exp(-x)` lies between zero and one.
pub proof fn lemma_exp_neg_unit(x: int)
    ensures
        0 <= spec_exp_neg(x) <= SCALE,
    decreases x,
{
    if x <= 0 {
    } else if x <= SCALE / 2 {
        lemma_exp_series_unit(x);
    } else {
        lemma_exp_neg_unit(x / 2);
        let h = spec_exp_neg(x / 2);
        lemma_unit_product(h, h);
    }
}

fn horner_step(y: Fixed, u: Fixed, k: i64) -> (r: Fixed)
    requires
        k > 0,
    ensures
        r@ == horner(y@, u@, k as int),
{
    Fixed::one().sat_sub(y.sat_mul(u).div_int(k))
}

fn cos_series_of(y: Fixed) -> (r: Fixed)
    ensures
        r@ == cos_series(y@),
{
    let u = horner_step(y, Fixed::one(), 132);
    let u = horner_step(y, u, 90);
    let u = horner_step(y, u, 56);
    let u = horner_step(y, u, 30);
    let u = horner_step(y, u, 12);
    horner_step(y, u, 2)
}

fn sin_series_of(x: Fixed, y: Fixed) -> (r: Fixed)
    ensures
        r@ == sin_series(x@, y@),
{
    let u = horner_step(y, Fixed::one(), 110);
    let u = horner_step(y, u, 72);
    let u = horner_step(y, u, 42);
    let u = horner_step(y, u, 20);
    let u = horner_step(y, u, 6);
    x.sat_mul(u)
}

fn exp_series_of(z: Fixed) -> (r: Fixed)
    ensures
        r@ == exp_series(z@),
{
    let u = horner_step(z, Fixed::one(), 10);
    let u = horner_step(z, u, 9);
    let u = horner_step(z, u, 8);
    let u = horner_step(z, u, 7);
    let u = horner_step(z, u, 6);
    let u = horner_step(z, u, 5);
    let u = horner_step(z, u, 4);
    let u = horner_step(z, u, 3);
    let u = horner_step(z, u, 2);
    horner_step(z, u, 1)
}

fn cos_quadrant_of(q: i64) -> (r: Fixed)
    requires
        0 <= q <= QUARTER,
    ensures
        r@ == cos_quadrant(q as int),
{
    if q <= QUARTER / 2 {
        let x = Fixed::from_raw(q).sat_mul(Fixed::from_raw(TAU));
        cos_series_of(x.sat_mul(x))
    } else {
        let x = Fixed::from_raw(QUARTER - q).sat_mul(Fixed::from_raw(TAU));
        sin_series_of(x, x.sat_mul(x))
    }
}

fn cos_first_turn_of(r: i64) -> (c: Fixed)
    requires
        0 <= r < SCALE,
    ensures
        c@ == cos_first_turn(r as int),
{
    let h: i64 = if r > 2 * QUARTER { SCALE - r } else { r };
    if h > QUARTER {
        let c = cos_quadrant_of(2 * QUARTER - h);
        proof {
            lemma_cos_turns_bounded(r as int);
            assert(r as int % (SCALE as int) == r);
        }
        Fixed::from_raw(-c.raw)
    } else {
        cos_quadrant_of(h)
    }
}

fn reduce_turns(t: i64) -> (r: i64)
    ensures
        r == t as int % (SCALE as int),
        0 <= r < SCALE,
{
    let m: i64 = t % SCALE;
    if m < 0 {
        m + SCALE
    } else {
        m
    }
}

/// Cosine of an angle of `t` turns.
pub fn cos_turns(t: Fixed) -> (r: Fixed)
    ensures
        r@ == spec_cos_turns(t@),
        -SCALE <= r@ <= SCALE,
{
    proof {
        lemma_cos_turns_bounded(t@);
    }
    cos_first_turn_of(reduce_turns(t.raw))
}

/// Sine of an angle of `t` turns.
pub fn sin_turns(t: Fixed) -> (r: Fixed)
    ensures
        r@ == spec_sin_turns(t@),
        -SCALE <= r@ <= SCALE,
{
    proof {
        lemma_sin_turns_bounded(t@);
    }
    let shifted: i64 = reduce_turns(t.raw) + 3 * QUARTER;
    cos_first_turn_of(reduce_turns(shifted))
}

/// `exp(-x)` for `x >= 0`; one for negative `x`.
pub fn exp_neg(x: Fixed) -> (r: Fixed)
    ensures
        r@ == spec_exp_neg(x@),
        0 <= r@ <= SCALE,
    decreases x@,
{
    proof {
        lemma_exp_neg_unit(x@);
    }
    if x.raw <= 0 {
        Fixed::one()
    } else if x.raw <= SCALE / 2 {
        exp_series_of(x)
    } else {
        let h = exp_neg(Fixed::from_raw(x.raw / 2));
        h.sat_mul(h)
    }
}

/// The square root of `x`, rounded down.
pub fn isqrt(x: u128) -> (r: u64)
    ensures
        r == sqrt_floor(x as int),
        is_sqrt_floor(x as int, r as int),
{
    let mut lo: u128 = 0;
    let mut hi: u128 = 0x1_0000_0000_0000_0000;
    assert(0x1_0000_0000_0000_0000 * 0x1_0000_0000_0000_0000 > x) by (nonlinear_arith)
        requires
            x <= 0xffff_ffff_ffff_ffff_ffff_ffff_ffff_ffff,
    ;
    while hi - lo > 1
        invariant
            lo < hi <= 0x1_0000_0000_0000_0000,
            lo * lo <= x < hi * hi,
        decreases hi - lo,
    {
        let mid: u128 = lo + (hi - lo) / 2;
        assert(mid * mid <= 0xffff_ffff_ffff_ffff * 0xffff_ffff_ffff_ffff) by (nonlinear_arith)
            requires
                0 <= mid <= 0xffff_ffff_ffff_ffff,
        ;
        if mid * mid <= x {
            lo = mid;
        } else {
            hi = mid;
        }
    }
    proof {
        lemma_sqrt_floor_unique(x as int, lo as int);
    }
    lo as u64
}

/// The length of the vector with the components `re` and `im`.
pub fn hypot(re: Fixed, im: Fixed) -> (r: Fixed)
    ensures
        r@ == spec_hypot(re@, im@),
        r@ >= 0,
{
    let wide_re: i128 = re.raw as i128;
    let wide_im: i128 = im.raw as i128;
    let a: u128 = (if wide_re < 0 { -wide_re } else { wide_re }) as u128;
    let b: u128 = (if wide_im < 0 { -wide_im } else { wide_im }) as u128;
    assert(a * a <= 0x8000_0000_0000_0000 * 0x8000_0000_0000_0000 && a * a == re@ * re@)
        by (nonlinear_arith)
        requires
            0 <= a <= 0x8000_0000_0000_0000,
            a == re@ || a == -re@,
    ;
    assert(b * b <= 0x8000_0000_0000_0000 * 0x8000_0000_0000_0000 && b * b == im@ * im@)
        by (nonlinear_arith)
        requires
            0 <= b <= 0x8000_0000_0000_0000,
            b == im@ || b == -im@,
    ;
    let root = isqrt(a * a + b * b);
    Fixed::from_wide(root as i128)
}

} // verus!
