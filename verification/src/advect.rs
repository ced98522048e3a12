//! Semi-Lagrangian advection: every cell traces backward along the
//! velocity field, clamps the traced position to the grid, and resamples
//! the advected field there by bilinear interpolation.

use vstd::prelude::*;
use vstd::arithmetic::div_mod::lemma_fundamental_div_mod_converse;
use crate::fixed::{
    lemma_fx_blend_range,
    FX_SCALE, FIELD_MAX, fx_mul, fx_mul_s, lemma_fx_mul_bound, lemma_fx_blend_bound,
    lemma_div_mod_basic, lemma_div_le,
};
use crate::grid::{SimError, MAX_DIM, idx, seq_bounded};

verus! {

/// `v` clamped into `[0, hi]`.
pub open spec fn clamp_s(v: int, hi: int) -> int {
    if v < 0 {
        0
    } else if v > hi {
        hi
    } else {
        v
    }
}

/// The backward-traced sample coordinate along one axis: the cell's own
/// fixed-point coordinate minus the velocity component, clamped to the
/// grid (clamped, not wrapped, so no read leaves the grid).
pub open spec fn sample_s(coord: int, vel: int, dim: int) -> int {
    clamp_s(coord * FX_SCALE - vel, (dim - 1) * FX_SCALE)
}

/// Linear blend of `a` toward `b` by the fractional weight `w`
/// (`0 <= w <= FX_SCALE`).
pub open spec fn lerp_s(a: int, b: int, w: int) -> int {
    fx_mul_s(a, FX_SCALE - w) + fx_mul_s(b, w)
}

/// Bilinear interpolation of the field `f` (row-major, width `w`) at the
/// non-negative fixed-point position `(sx, sy)`: blend along x between the
/// floor and ceiling columns, then blend those two rows along y.
pub open spec fn bilerp(f: Seq<i64>, w: int, sx: int, sy: int) -> int {
    let xf = sx / (FX_SCALE as int);
    let xr = sx % (FX_SCALE as int);
    let yf = sy / (FX_SCALE as int);
    let yr = sy % (FX_SCALE as int);
    let xc = if xr == 0 {
        xf
    } else {
        xf + 1
    };
    let yc = if yr == 0 {
        yf
    } else {
        yf + 1
    };
    let c0 = lerp_s(f[idx(xf, yf, w)] as int, f[idx(xc, yf, w)] as int, xr);
    let c1 = lerp_s(f[idx(xf, yc, w)] as int, f[idx(xc, yc, w)] as int, xr);
    lerp_s(c0, c1, yr)
}

/// The advected value of cell `(cx, cy)`: the field `f` resampled at the
/// position traced backward along the velocity planes `vx`, `vy`.
pub open spec fn advect_cell(
    f: Seq<i64>,
    vx: Seq<i64>,
    vy: Seq<i64>,
    w: int,
    h: int,
    cx: int,
    cy: int,
) -> int {
    bilerp(
        f,
        w,
        sample_s(cx, vx[idx(cx, cy, w)] as int, w),
        sample_s(cy, vy[idx(cx, cy, w)] as int, h),
    )
}

/// The whole advected field, cell by cell in row-major order.
pub open spec fn advected(f: Seq<i64>, vx: Seq<i64>, vy: Seq<i64>, w: int, h: int) -> Seq<i64> {
    Seq::new((w * h) as nat, |j: int| advect_cell(f, vx, vy, w, h, j % w, j / w) as i64)
}

/// Advection identity: with zero velocity everywhere, the backward trace
/// lands exactly on each cell's own centre, the interpolation weights
/// vanish, and every advected field comes back unchanged.
pub proof fn lemma_advect_identity(f: Seq<i64>, vx: Seq<i64>, vy: Seq<i64>, w: int, h: int)
    requires
        1 <= w,
        1 <= h,
        f.len() == w * h,
        vx.len() == w * h,
        vy.len() == w * h,
        forall|j: int| 0 <= j < vx.len() ==> #[trigger] vx[j] == 0,
        forall|j: int| 0 <= j < vy.len() ==> #[trigger] vy[j] == 0,
    ensures
        advected(f, vx, vy, w, h) == f,
{
    let s = FX_SCALE as int;
    assert forall|j: int| 0 <= j < w * h implies advect_cell(f, vx, vy, w, h, j % w, j / w)
        == f[j] as int by {
        lemma_div_mod_basic(j, w);
        let cx = j % w;
        let cy = j / w;
        assert(j < h * w) by (nonlinear_arith)
            requires j < w * h,
        ;
        crate::fixed::lemma_div_lt(j, w, h);
        assert(cx + w * cy == j);
        assert(0 <= cx * s && cx * s <= (w - 1) * s) by (nonlinear_arith)
            requires 0 <= cx && cx <= w - 1 && s > 0,
        ;
        assert(0 <= cy * s && cy * s <= (h - 1) * s) by (nonlinear_arith)
            requires 0 <= cy && cy <= h - 1 && s > 0,
        ;
        assert(vx[idx(cx, cy, w)] == 0 && vy[idx(cx, cy, w)] == 0);
        assert(sample_s(cx, 0, w) == cx * s);
        assert(sample_s(cy, 0, h) == cy * s);
        lemma_fundamental_div_mod_converse(cx * s, s, cx, 0);
        lemma_fundamental_div_mod_converse(cy * s, s, cy, 0);
        crate::fixed::lemma_fx_mul_unit(f[j] as int);
        crate::fixed::lemma_fx_mul_zero(f[j] as int);
        assert(lerp_s(f[j] as int, f[j] as int, 0) == f[j] as int);
    }
    assert(advected(f, vx, vy, w, h) =~= f);
}

/// Bilinear resampling creates no new extremes: if every cell of `f`
/// lies in `[0, hi]`, so does every cell of the advected field, whatever
/// the velocity planes hold.
pub proof fn lemma_advect_range(
    f: Seq<i64>,
    vx: Seq<i64>,
    vy: Seq<i64>,
    w: int,
    h: int,
    hi: i64,
)
    requires
        1 <= w,
        1 <= h,
        f.len() == w * h,
        0 <= hi,
        forall|j: int| 0 <= j < f.len() ==> 0 <= #[trigger] f[j] <= hi,
    ensures
        forall|j: int|
            0 <= j < w * h ==> 0 <= #[trigger] advected(f, vx, vy, w, h)[j] <= hi,
{
    let s = FX_SCALE as int;
    assert forall|j: int| 0 <= j < w * h implies 0 <= #[trigger] advected(f, vx, vy, w, h)[j]
        <= hi by {
        let cx = j % w;
        let cy = j / w;
        let sx = sample_s(cx, vx[idx(cx, cy, w)] as int, w);
        let sy = sample_s(cy, vy[idx(cx, cy, w)] as int, h);
        assert((w - 1) * s >= 0 && (h - 1) * s >= 0) by (nonlinear_arith)
            requires w >= 1 && h >= 1 && s > 0,
        ;
        assert(0 <= sx <= (w - 1) * s && 0 <= sy <= (h - 1) * s);
        lemma_div_mod_basic(sx, s);
        lemma_div_mod_basic(sy, s);
        lemma_div_le(sx, s, w - 1);
        lemma_div_le(sy, s, h - 1);
        let xf = sx / s;
        let xr = sx % s;
        let yf = sy / s;
        let yr = sy % s;
        let xc = if xr == 0 {
            xf
        } else {
            xf + 1
        };
        let yc = if yr == 0 {
            yf
        } else {
            yf + 1
        };
        assert(0 <= xf <= xc <= w - 1 && 0 <= yf <= yc <= h - 1);
        assert((xc + w * yc) < w * h && (xf + w * yc) < w * h && (xc + w * yf) < w * h && (xf + w
            * yf) < w * h && 0 <= xf + w * yf && 0 <= xc + w * yf && 0 <= xf + w * yc && 0 <= xc
            + w * yc) by (nonlinear_arith)
            requires
                0 <= xf,
                xf <= xc,
                xc <= w - 1,
                0 <= yf,
                yf <= yc,
                yc <= h - 1,
        ;
        lemma_fx_blend_range(f[idx(xf, yf, w)] as int, f[idx(xc, yf, w)] as int, xr, hi as int);
        lemma_fx_blend_range(f[idx(xf, yc, w)] as int, f[idx(xc, yc, w)] as int, xr, hi as int);
        let c0 = lerp_s(f[idx(xf, yf, w)] as int, f[idx(xc, yf, w)] as int, xr);
        let c1 = lerp_s(f[idx(xf, yc, w)] as int, f[idx(xc, yc, w)] as int, xr);
        lemma_fx_blend_range(c0, c1, yr, hi as int);
    }
}

/// One clamped backward-traced sample coordinate.
fn sample(coord: usize, vel: i64, dim: usize) -> (r: i64)
    requires
        coord < dim,
        1 <= dim <= MAX_DIM,
        -FIELD_MAX <= vel <= FIELD_MAX,
    ensures
        r as int == sample_s(coord as int, vel as int, dim as int),
        0 <= r as int <= (dim - 1) * (FX_SCALE as int),
{
    proof {
        assert(0 <= coord as int * FX_SCALE as int <= MAX_DIM as int * FX_SCALE as int)
            by (nonlinear_arith)
            requires 0 <= coord as int <= MAX_DIM as int,
        ;
        assert(0 <= (dim - 1) as int * FX_SCALE as int <= MAX_DIM as int * FX_SCALE as int)
            by (nonlinear_arith)
            requires 0 <= (dim - 1) as int <= MAX_DIM as int,
        ;
    }
    let pos: i64 = coord as i64 * FX_SCALE - vel;
    let hi: i64 = (dim as i64 - 1) * FX_SCALE;
    if pos < 0 {
        0
    } else if pos > hi {
        hi
    } else {
        pos
    }
}

/// Linear blend of two bounded field values by a fractional weight.
fn lerp(a: i64, b: i64, w: i64) -> (r: i64)
    requires
        -FIELD_MAX <= a <= FIELD_MAX,
        -FIELD_MAX <= b <= FIELD_MAX,
        0 <= w <= FX_SCALE,
    ensures
        r as int == lerp_s(a as int, b as int, w as int),
        -FIELD_MAX <= r <= FIELD_MAX,
{
    proof {
        assert(-0x4000_0000_0000_0000 <= a as int * (FX_SCALE - w) as int
            <= 0x4000_0000_0000_0000) by (nonlinear_arith)
            requires
                -FIELD_MAX <= a as int <= FIELD_MAX,
                0 <= (FX_SCALE - w) as int <= FX_SCALE as int,
        ;
        assert(-0x4000_0000_0000_0000 <= b as int * w as int <= 0x4000_0000_0000_0000)
            by (nonlinear_arith)
            requires -FIELD_MAX <= b as int <= FIELD_MAX, 0 <= w as int <= FX_SCALE as int,
        ;
        lemma_fx_mul_bound(a as int, FX_SCALE - w as int, FIELD_MAX as int);
        lemma_fx_mul_bound(b as int, w as int, FIELD_MAX as int);
        lemma_fx_blend_bound(a as int, b as int, w as int, FIELD_MAX as int);
    }
    fx_mul(a, FX_SCALE - w) + fx_mul(b, w)
}

/// Bilinear interpolation of `f` at the in-grid position `(sx, sy)`.
fn bilerp_at(f: &Vec<i64>, width: usize, height: usize, sx: i64, sy: i64) -> (r: i64)
    requires
        1 <= width <= MAX_DIM,
        1 <= height <= MAX_DIM,
        f@.len() == width * height,
        seq_bounded(f@, FIELD_MAX as int),
        0 <= sx as int <= (width - 1) * (FX_SCALE as int),
        0 <= sy as int <= (height - 1) * (FX_SCALE as int),
    ensures
        r as int == bilerp(f@, width as int, sx as int, sy as int),
        -FIELD_MAX <= r <= FIELD_MAX,
{
    let s: i64 = FX_SCALE;
    let xf: usize = (sx / s) as usize;
    let xr: i64 = sx % s;
    let yf: usize = (sy / s) as usize;
    let yr: i64 = sy % s;
    proof {
        lemma_div_mod_basic(sx as int, s as int);
        lemma_div_mod_basic(sy as int, s as int);
        lemma_div_le(sx as int, s as int, (width - 1) as int);
        lemma_div_le(sy as int, s as int, (height - 1) as int);
    }
    let xc: usize = if xr == 0 {
        xf
    } else {
        xf + 1
    };
    let yc: usize = if yr == 0 {
        yf
    } else {
        yf + 1
    };
    proof {
        assert(xc as int <= width - 1 && yc as int <= height - 1);
        assert((xc as int + width as int * yc as int) < width as int * height as int
            && (xf as int + width as int * yc as int) < width as int * height as int
            && (xc as int + width as int * yf as int) < width as int * height as int
            && (xf as int + width as int * yf as int) < width as int * height as int)
            by (nonlinear_arith)
            requires
                0 <= xf as int,
                xf as int <= xc as int,
                xc as int <= width as int - 1,
                0 <= yf as int,
                yf as int <= yc as int,
                yc as int <= height as int - 1,
        ;
        assert(width as int * height as int <= MAX_DIM as int * MAX_DIM as int)
            by (nonlinear_arith)
            requires
                1 <= width as int,
                width as int <= MAX_DIM as int,
                1 <= height as int,
                height as int <= MAX_DIM as int,
        ;
    }
    let i00: usize = xf + width * yf;
    let i10: usize = xc + width * yf;
    let i01: usize = xf + width * yc;
    let i11: usize = xc + width * yc;
    let c0 = lerp(f[i00], f[i10], xr);
    let c1 = lerp(f[i01], f[i11], xr);
    lerp(c0, c1, yr)
}

/// Semi-Lagrangian advection of the colour field and both velocity planes
/// in one full-grid pass.  Every output cell `(x, y)` receives the input
/// fields resampled at `(x, y) - velocity(x, y)`, clamped to the grid; the
/// input fields are read only, so each update sees the pre-pass state.
/// Fields whose length is not `width * height` are rejected with
/// `ShapeMismatch` and leave the outputs unchanged.
#[verifier::loop_isolation(false)]
pub fn advect(
    color: &Vec<i64>,
    vel_x: &Vec<i64>,
    vel_y: &Vec<i64>,
    width: usize,
    height: usize,
    next_color: &mut Vec<i64>,
    next_vel_x: &mut Vec<i64>,
    next_vel_y: &mut Vec<i64>,
) -> (r: Result<(), SimError>)
    requires
        1 <= width <= MAX_DIM,
        1 <= height <= MAX_DIM,
        seq_bounded(color@, FIELD_MAX as int),
        seq_bounded(vel_x@, FIELD_MAX as int),
        seq_bounded(vel_y@, FIELD_MAX as int),
    ensures
        match r {
            Ok(()) => {
                &&& color@.len() == width * height
                &&& vel_x@.len() == width * height
                &&& vel_y@.len() == width * height
                &&& old(next_color)@.len() == width * height
                &&& old(next_vel_x)@.len() == width * height
                &&& old(next_vel_y)@.len() == width * height
                &&& final(next_color)@ == advected(
                    color@,
                    vel_x@,
                    vel_y@,
                    width as int,
                    height as int,
                )
                &&& final(next_vel_x)@ == advected(
                    vel_x@,
                    vel_x@,
                    vel_y@,
                    width as int,
                    height as int,
                )
                &&& final(next_vel_y)@ == advected(
                    vel_y@,
                    vel_x@,
                    vel_y@,
                    width as int,
                    height as int,
                )
                &&& seq_bounded(final(next_color)@, FIELD_MAX as int)
                &&& seq_bounded(final(next_vel_x)@, FIELD_MAX as int)
                &&& seq_bounded(final(next_vel_y)@, FIELD_MAX as int)
            },
            Err(e) => {
                &&& e == SimError::ShapeMismatch
                &&& !(color@.len() == width * height && vel_x@.len() == width * height
                    && vel_y@.len() == width * height && old(next_color)@.len() == width * height
                    && old(next_vel_x)@.len() == width * height && old(next_vel_y)@.len() == width
                    * height)
                &&& final(next_color)@ == old(next_color)@
                &&& final(next_vel_x)@ == old(next_vel_x)@
                &&& final(next_vel_y)@ == old(next_vel_y)@
            },
        },
{
    proof {
        assert(width * height <= MAX_DIM * MAX_DIM) by (nonlinear_arith)
            requires 1 <= width <= MAX_DIM && 1 <= height <= MAX_DIM,
        ;
    }
    let wh: usize = width * height;
    if color.len() != wh || vel_x.len() != wh || vel_y.len() != wh || next_color.len() != wh
        || next_vel_x.len() != wh || next_vel_y.len() != wh {
        return Err(SimError::ShapeMismatch);
    }
    let ghost w = width as int;
    let ghost h = height as int;
    let mut cy: usize = 0;
    while cy < height
        invariant
            cy <= height,
            next_color@.len() == wh,
            next_vel_x@.len() == wh,
            next_vel_y@.len() == wh,
            forall|j: int|
                0 <= j < w * cy ==> (#[trigger] next_color@[j]) as int == advect_cell(
                    color@,
                    vel_x@,
                    vel_y@,
                    w,
                    h,
                    j % w,
                    j / w,
                ),
            forall|j: int|
                0 <= j < w * cy ==> (#[trigger] next_vel_x@[j]) as int == advect_cell(
                    vel_x@,
                    vel_x@,
                    vel_y@,
                    w,
                    h,
                    j % w,
                    j / w,
                ),
            forall|j: int|
                0 <= j < w * cy ==> (#[trigger] next_vel_y@[j]) as int == advect_cell(
                    vel_y@,
                    vel_x@,
                    vel_y@,
                    w,
                    h,
                    j % w,
                    j / w,
                ),
            forall|j: int|
                0 <= j < w * cy ==> -FIELD_MAX <= #[trigger] next_color@[j] <= FIELD_MAX,
            forall|j: int|
                0 <= j < w * cy ==> -FIELD_MAX <= #[trigger] next_vel_x@[j] <= FIELD_MAX,
            forall|j: int|
                0 <= j < w * cy ==> -FIELD_MAX <= #[trigger] next_vel_y@[j] <= FIELD_MAX,
        decreases height - cy,
    {
        let mut cx: usize = 0;
        while cx < width
            invariant
                cx <= width,
                cy < height,
                next_color@.len() == wh,
                next_vel_x@.len() == wh,
                next_vel_y@.len() == wh,
                forall|j: int|
                    0 <= j < w * cy + cx ==> (#[trigger] next_color@[j]) as int == advect_cell(
                        color@,
                        vel_x@,
                        vel_y@,
                        w,
                        h,
                        j % w,
                        j / w,
                    ),
                forall|j: int|
                    0 <= j < w * cy + cx ==> (#[trigger] next_vel_x@[j]) as int == advect_cell(
                        vel_x@,
                        vel_x@,
                        vel_y@,
                        w,
                        h,
                        j % w,
                        j / w,
                    ),
                forall|j: int|
                    0 <= j < w * cy + cx ==> (#[trigger] next_vel_y@[j]) as int == advect_cell(
                        vel_y@,
                        vel_x@,
                        vel_y@,
                        w,
                        h,
                        j % w,
                        j / w,
                    ),
                forall|j: int|
                    0 <= j < w * cy + cx ==> -FIELD_MAX <= #[trigger] next_color@[j] <= FIELD_MAX,
                forall|j: int|
                    0 <= j < w * cy + cx ==> -FIELD_MAX <= #[trigger] next_vel_x@[j] <= FIELD_MAX,
                forall|j: int|
                    0 <= j < w * cy + cx ==> -FIELD_MAX <= #[trigger] next_vel_y@[j] <= FIELD_MAX,
            decreases width - cx,
        {
            proof {
                assert(w * cy + cx < w * h && w * cy + cx + 1 <= w * (cy + 1))
                    by (nonlinear_arith)
                    requires 0 <= cx < w && 0 <= cy < h,
                ;
            }
            let j0: usize = cx + width * cy;
            let vxv = vel_x[j0];
            let vyv = vel_y[j0];
            let sx = sample(cx, vxv, width);
            let sy = sample(cy, vyv, height);
            let nc = bilerp_at(color, width, height, sx, sy);
            let nvx = bilerp_at(vel_x, width, height, sx, sy);
            let nvy = bilerp_at(vel_y, width, height, sx, sy);
            next_color.set(j0, nc);
            next_vel_x.set(j0, nvx);
            next_vel_y.set(j0, nvy);
            proof {
                assert(j0 as int == cy as int * w + cx as int) by (nonlinear_arith)
                    requires j0 as int == cx as int + w * cy as int,
                ;
                lemma_fundamental_div_mod_converse(j0 as int, w, cy as int, cx as int);
            }
            cx += 1;
        }
        proof {
            assert(w * cy + width == w * (cy + 1)) by (nonlinear_arith)
                requires w == width as int,
            ;
        }
        cy += 1;
    }
    proof {
        assert(final(next_color)@ =~= advected(color@, vel_x@, vel_y@, w, h));
        assert(final(next_vel_x)@ =~= advected(vel_x@, vel_x@, vel_y@, w, h));
        assert(final(next_vel_y)@ =~= advected(vel_y@, vel_x@, vel_y@, w, h));
    }
    Ok(())
}

} // verus!
