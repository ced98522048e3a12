//! Fixed-point scalar arithmetic for the grid fields.
//!
//! Every field value is an `i64` holding a signed fixed-point number with
//! `FX_SCALE` as the unit: the integer `raw` stands for the real number
//! `raw / FX_SCALE`.  All operations are exact integer computations, so each
//! one has a complete mathematical specification.

use vstd::prelude::*;
use vstd::arithmetic::div_mod::{lemma_fundamental_div_mod, lemma_div_multiples_vanish};

verus! {

/// One unit of the fixed-point representation (the value `1.0`).
pub const FX_SCALE: i64 = 65536;

/// Largest magnitude a field value may have on entry to a grid step.
/// Chosen so that every intermediate product with a weight of magnitude
/// at most `FX_SCALE` stays far below `i64::MAX`.
pub const FIELD_MAX: i64 = 0x100_0000_0000;

/// Truncating (round-toward-zero) division of `p` by the positive divisor
/// `d`, stated over mathematical integers.  This is exactly what Rust's
/// `/` computes on `i64` operands.
pub open spec fn trunc_div(p: int, d: int) -> int {
    if p >= 0 {
        p / d
    } else {
        -((-p) / d)
    }
}

/// The fixed-point product of `a` and `b`: the full integer product scaled
/// back down by `FX_SCALE`, rounded toward zero.
pub open spec fn fx_mul_s(a: int, b: int) -> int {
    trunc_div(a * b, FX_SCALE as int)
}

/// The magnitude of a truncating quotient, scaled back up by the divisor,
/// never exceeds the magnitude of the dividend.
pub proof fn lemma_trunc_div_mag(p: int, d: int)
    requires
        d >= 1,
    ensures
        vstd::math::abs(trunc_div(p, d)) * d <= vstd::math::abs(p),
        vstd::math::abs(trunc_div(p, d)) <= vstd::math::abs(p),
{
    let q = if p >= 0 { p } else { -p };
    lemma_fundamental_div_mod(q, d);
    assert(d * (q / d) <= q);
    assert(q / d >= 0) by (nonlinear_arith)
        requires d >= 1 && q >= 0 && d * (q / d) > q - d && d * (q / d) <= q,
    ;
    assert((q / d) * d <= q) by (nonlinear_arith)
        requires d * (q / d) <= q,
    ;
    assert(q / d <= (q / d) * d) by (nonlinear_arith)
        requires d >= 1 && q / d >= 0,
    ;
}

/// Multiplying by the unit `FX_SCALE` is the identity.
pub proof fn lemma_fx_mul_unit(a: int)
    ensures
        fx_mul_s(a, FX_SCALE as int) == a,
{
    let s = FX_SCALE as int;
    if a >= 0 {
        lemma_div_multiples_vanish(a, s);
    } else {
        lemma_div_multiples_vanish(-a, s);
        assert(-(a * s) == (-a) * s) by (nonlinear_arith);
        assert(a * s <= 0) by (nonlinear_arith)
            requires a < 0 && s > 0,
        ;
    }
}

/// Multiplying by zero gives zero.
pub proof fn lemma_fx_mul_zero(a: int)
    ensures
        fx_mul_s(a, 0) == 0,
        fx_mul_s(0, a) == 0,
{
    assert(a * 0 == 0) by (nonlinear_arith);
    assert(0 * a == 0) by (nonlinear_arith);
    assert(trunc_div(0, FX_SCALE as int) == 0) by {
        vstd::arithmetic::div_mod::lemma_div_of0(FX_SCALE as int);
    }
}

/// A fixed-point product with a factor of magnitude at most one unit
/// keeps the other factor's bound.
pub proof fn lemma_fx_mul_bound(a: int, w: int, bound: int)
    requires
        -bound <= a <= bound,
        -(FX_SCALE as int) <= w <= FX_SCALE as int,
        bound >= 0,
    ensures
        -bound <= fx_mul_s(a, w) <= bound,
{
    let s = FX_SCALE as int;
    lemma_trunc_div_mag(a * w, s);
    assert(vstd::math::abs(a * w) <= bound * s) by (nonlinear_arith)
        requires -bound <= a <= bound && -s <= w <= s && bound >= 0 && s >= 0,
    ;
    let t = trunc_div(a * w, s);
    assert(vstd::math::abs(t) * s <= bound * s);
    assert(vstd::math::abs(t) <= bound) by (nonlinear_arith)
        requires vstd::math::abs(t) * s <= bound * s && s >= 1,
    ;
}

/// A convex combination in fixed point: two terms whose weights are
/// non-negative and sum to one unit together stay within the common bound
/// on the inputs.
pub proof fn lemma_fx_blend_bound(a: int, b: int, w: int, bound: int)
    requires
        -bound <= a <= bound,
        -bound <= b <= bound,
        0 <= w <= FX_SCALE as int,
        bound >= 0,
    ensures
        -bound <= fx_mul_s(a, FX_SCALE - w) + fx_mul_s(b, w) <= bound,
{
    let s = FX_SCALE as int;
    let t1 = fx_mul_s(a, s - w);
    let t2 = fx_mul_s(b, w);
    lemma_trunc_div_mag(a * (s - w), s);
    lemma_trunc_div_mag(b * w, s);
    assert(vstd::math::abs(a * (s - w)) <= bound * (s - w)) by (nonlinear_arith)
        requires -bound <= a <= bound && 0 <= s - w && bound >= 0,
    ;
    assert(vstd::math::abs(b * w) <= bound * w) by (nonlinear_arith)
        requires -bound <= b <= bound && 0 <= w && bound >= 0,
    ;
    assert(vstd::math::abs(t1) * s + vstd::math::abs(t2) * s <= bound * (s - w) + bound * w);
    assert(bound * (s - w) + bound * w == bound * s) by (nonlinear_arith);
    assert(vstd::math::abs(t1) + vstd::math::abs(t2) <= bound) by (nonlinear_arith)
        requires
            vstd::math::abs(t1) * s + vstd::math::abs(t2) * s <= bound * s && s >= 1,
    ;
}

/// Basic facts about Euclidean division of a non-negative integer by a
/// positive divisor.
pub proof fn lemma_div_mod_basic(s: int, d: int)
    requires
        0 <= s,
        d >= 1,
    ensures
        0 <= s % d < d,
        s == d * (s / d) + s % d,
        s / d >= 0,
{
    lemma_fundamental_div_mod(s, d);
    vstd::arithmetic::div_mod::lemma_mod_division_less_than_divisor(s, d);
    vstd::arithmetic::div_mod::lemma_div_pos_is_pos(s, d);
}

/// A quotient stays at or below `hi` when the dividend stays at or below
/// `hi * d`; if the division is not exact it stays strictly below `hi`.
pub proof fn lemma_div_le(s: int, d: int, hi: int)
    requires
        0 <= s <= hi * d,
        d >= 1,
        hi >= 0,
    ensures
        0 <= s / d <= hi,
        s % d != 0 ==> s / d <= hi - 1,
{
    lemma_div_mod_basic(s, d);
    let q = s / d;
    let r = s % d;
    assert(q <= hi) by (nonlinear_arith)
        requires s == d * q + r && r >= 0 && s <= hi * d && d >= 1 && hi >= 0,
    ;
    if r != 0 && q == hi {
        assert(s > hi * d) by (nonlinear_arith)
            requires s == d * q + r && r > 0 && q == hi,
        ;
    }
}

/// A quotient stays strictly below `q` when the dividend stays strictly
/// below `q * d`.
pub proof fn lemma_div_lt(s: int, d: int, q: int)
    requires
        0 <= s < q * d,
        d >= 1,
    ensures
        0 <= s / d < q,
{
    lemma_div_mod_basic(s, d);
    assert(s / d < q) by (nonlinear_arith)
        requires s == d * (s / d) + s % d && s % d >= 0 && s < q * d && d >= 1 && s / d >= 0,
    ;
}

/// A convex combination of two values from `[0, hi]` stays in `[0, hi]`:
/// truncation only moves each term toward zero, and the two weights sum
/// to one unit.
pub proof fn lemma_fx_blend_range(a: int, b: int, w: int, hi: int)
    requires
        0 <= a <= hi,
        0 <= b <= hi,
        0 <= w <= FX_SCALE as int,
    ensures
        0 <= fx_mul_s(a, FX_SCALE - w) + fx_mul_s(b, w) <= hi,
{
    let s = FX_SCALE as int;
    let t1 = fx_mul_s(a, s - w);
    let t2 = fx_mul_s(b, w);
    assert(a * (s - w) >= 0 && b * w >= 0) by (nonlinear_arith)
        requires a >= 0 && b >= 0 && 0 <= w <= s,
    ;
    lemma_div_mod_basic(a * (s - w), s);
    lemma_div_mod_basic(b * w, s);
    lemma_trunc_div_mag(a * (s - w), s);
    lemma_trunc_div_mag(b * w, s);
    assert(a * (s - w) <= hi * (s - w) && b * w <= hi * w) by (nonlinear_arith)
        requires 0 <= a <= hi && 0 <= b <= hi && 0 <= w <= s,
    ;
    assert(hi * (s - w) + hi * w == hi * s) by (nonlinear_arith);
    assert(t1 + t2 <= hi) by (nonlinear_arith)
        requires t1 * s <= hi * s - hi * w && t2 * s <= hi * w && s >= 1,
    ;
}

/// The fixed-point product, computed exactly.
pub fn fx_mul(a: i64, b: i64) -> (r: i64)
    requires
        -0x4000_0000_0000_0000 <= a as int * b as int <= 0x4000_0000_0000_0000,
    ensures
        r == fx_mul_s(a as int, b as int),
{
    proof {
        lemma_trunc_div_mag(a as int * b as int, FX_SCALE as int);
    }
    (a * b) / FX_SCALE
}

/// Half of `p`, rounded toward zero, as the finite differences use it.
pub fn fx_half(p: i64) -> (r: i64)
    requires
        p != i64::MIN,
    ensures
        r == trunc_div(p as int, 2),
{
    p / 2
}

/// Maps a fixed-point colour value to an 8-bit raster intensity: the value
/// is scaled by 255 and saturated into `[0, 255]`, exactly as a clamped
/// float-to-byte conversion of a unit-range colour would do.
pub fn quantize(v: i64) -> (r: u8)
    requires
        -FIELD_MAX <= v <= FIELD_MAX,
    ensures
        r as int == {
            let scaled = trunc_div(v as int * 255, FX_SCALE as int);
            if scaled < 0 { 0 } else if scaled > 255 { 255 } else { scaled }
        },
{
    proof {
        lemma_trunc_div_mag(v as int * 255, FX_SCALE as int);
        assert(-(FIELD_MAX as int) * 255 <= v as int * 255 <= FIELD_MAX as int * 255)
            by (nonlinear_arith)
            requires -FIELD_MAX <= v as int <= FIELD_MAX,
        ;
        assert(vstd::math::abs(v as int * 255) <= FIELD_MAX as int * 255);
    }
    let scaled: i64 = (v * 255) / FX_SCALE;
    if scaled < 0 {
        0
    } else if scaled > 255 {
        255
    } else {
        scaled as u8
    }
}

} // verus!
