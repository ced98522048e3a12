//! Divergence of the velocity field and the pressure-gradient correction.
//!
//! Divergence uses a central difference in the interior and a one-sided
//! rule at the walls: at the low wall the adjacent component is taken
//! as-is, at the high wall negated.  The pressure
//! correction subtracts half the pressure difference of the two
//! neighbours at interior cells and leaves wall cells untouched
//! (solid-wall boundary).

use vstd::prelude::*;
use vstd::arithmetic::div_mod::lemma_fundamental_div_mod_converse;
use crate::fixed::{FIELD_MAX, trunc_div, fx_half, lemma_trunc_div_mag};
use crate::grid::{SimError, MAX_DIM, idx, seq_bounded};

verus! {

/// The x-derivative term of the divergence at `(cx, cy)`.
pub open spec fn div_x(vx: Seq<i64>, w: int, cx: int, cy: int) -> int {
    if cx == 0 {
        vx[idx(1, cy, w)] as int
    } else if cx == w - 1 {
        -(vx[idx(w - 2, cy, w)] as int)
    } else {
        trunc_div(vx[idx(cx + 1, cy, w)] as int - vx[idx(cx - 1, cy, w)] as int, 2)
    }
}

/// The y-derivative term of the divergence at `(cx, cy)`.
pub open spec fn div_y(vy: Seq<i64>, w: int, h: int, cx: int, cy: int) -> int {
    if cy == 0 {
        vy[idx(cx, 1, w)] as int
    } else if cy == h - 1 {
        -(vy[idx(cx, h - 2, w)] as int)
    } else {
        trunc_div(vy[idx(cx, cy + 1, w)] as int - vy[idx(cx, cy - 1, w)] as int, 2)
    }
}

/// The discrete divergence at one cell.
pub open spec fn div_cell(vx: Seq<i64>, vy: Seq<i64>, w: int, h: int, cx: int, cy: int) -> int {
    div_x(vx, w, cx, cy) + div_y(vy, w, h, cx, cy)
}

/// The whole divergence field in row-major order.
pub open spec fn divergence_field(vx: Seq<i64>, vy: Seq<i64>, w: int, h: int) -> Seq<i64> {
    Seq::new((w * h) as nat, |j: int| div_cell(vx, vy, w, h, j % w, j / w) as i64)
}

/// The x component of the discrete pressure gradient; zero at the walls.
pub open spec fn grad_x(p: Seq<i64>, w: int, cx: int, cy: int) -> int {
    if cx == 0 || cx == w - 1 {
        0
    } else {
        trunc_div(p[idx(cx + 1, cy, w)] as int - p[idx(cx - 1, cy, w)] as int, 2)
    }
}

/// The y component of the discrete pressure gradient; zero at the walls.
pub open spec fn grad_y(p: Seq<i64>, w: int, h: int, cx: int, cy: int) -> int {
    if cy == 0 || cy == h - 1 {
        0
    } else {
        trunc_div(p[idx(cx, cy + 1, w)] as int - p[idx(cx, cy - 1, w)] as int, 2)
    }
}

/// The x velocity plane after the pressure-gradient subtraction.
pub open spec fn projected_x(vx: Seq<i64>, p: Seq<i64>, w: int, h: int) -> Seq<i64> {
    Seq::new((w * h) as nat, |j: int| (vx[j] - grad_x(p, w, j % w, j / w)) as i64)
}

/// The y velocity plane after the pressure-gradient subtraction.
pub open spec fn projected_y(vy: Seq<i64>, p: Seq<i64>, w: int, h: int) -> Seq<i64> {
    Seq::new((w * h) as nat, |j: int| (vy[j] - grad_y(p, w, h, j % w, j / w)) as i64)
}

/// A constant velocity field has zero divergence at every interior cell.
pub proof fn lemma_divergence_uniform(
    vx: Seq<i64>,
    vy: Seq<i64>,
    w: int,
    h: int,
    cvx: i64,
    cvy: i64,
    cx: int,
    cy: int,
)
    requires
        w >= 2,
        h >= 2,
        vx.len() == w * h,
        vy.len() == w * h,
        forall|j: int| 0 <= j < vx.len() ==> #[trigger] vx[j] == cvx,
        forall|j: int| 0 <= j < vy.len() ==> #[trigger] vy[j] == cvy,
        1 <= cx < w - 1,
        1 <= cy < h - 1,
    ensures
        div_cell(vx, vy, w, h, cx, cy) == 0,
{
    assert((cx + 1 + w * cy) < w * h && 0 <= cx - 1 + w * cy && 0 <= cx + 1 + w * cy && (cx + w
        * (cy + 1)) < w * h && 0 <= cx + w * (cy + 1) && 0 <= cx + w * (cy - 1) && (cx + w * (cy
        - 1)) < w * h) by (nonlinear_arith)
        requires 1 <= cx < w - 1 && 1 <= cy < h - 1 && w >= 2 && h >= 2,
    ;
    assert(vx[idx(cx + 1, cy, w)] == cvx && vx[idx(cx - 1, cy, w)] == cvx);
    assert(vy[idx(cx, cy + 1, w)] == cvy && vy[idx(cx, cy - 1, w)] == cvy);
    assert(trunc_div(0, 2) == 0) by {
        vstd::arithmetic::div_mod::lemma_div_of0(2);
    }
}

/// Computes the divergence field of the velocity planes.  Fields whose
/// length is not `width * height` are rejected with `ShapeMismatch` and
/// leave `out` unchanged.
#[verifier::loop_isolation(false)]
pub fn divergence(
    vel_x: &Vec<i64>,
    vel_y: &Vec<i64>,
    width: usize,
    height: usize,
    out: &mut Vec<i64>,
) -> (r: Result<(), SimError>)
    requires
        2 <= width <= MAX_DIM,
        2 <= height <= MAX_DIM,
        seq_bounded(vel_x@, FIELD_MAX as int),
        seq_bounded(vel_y@, FIELD_MAX as int),
    ensures
        match r {
            Ok(()) => {
                &&& vel_x@.len() == width * height
                &&& vel_y@.len() == width * height
                &&& old(out)@.len() == width * height
                &&& final(out)@ == divergence_field(vel_x@, vel_y@, width as int, height as int)
                &&& seq_bounded(final(out)@, 2 * (FIELD_MAX as int))
            },
            Err(e) => {
                &&& e == SimError::ShapeMismatch
                &&& !(vel_x@.len() == width * height && vel_y@.len() == width * height && old(
                    out,
                )@.len() == width * height)
                &&& final(out)@ == old(out)@
            },
        },
{
    proof {
        assert(width * height <= MAX_DIM * MAX_DIM) by (nonlinear_arith)
            requires 2 <= width <= MAX_DIM && 2 <= height <= MAX_DIM,
        ;
    }
    let wh: usize = width * height;
    if vel_x.len() != wh || vel_y.len() != wh || out.len() != wh {
        return Err(SimError::ShapeMismatch);
    }
    let ghost w = width as int;
    let ghost h = height as int;
    let mut cy: usize = 0;
    while cy < height
        invariant
            cy <= height,
            out@.len() == wh,
            forall|j: int|
                0 <= j < w * cy ==> (#[trigger] out@[j]) as int == div_cell(
                    vel_x@,
                    vel_y@,
                    w,
                    h,
                    j % w,
                    j / w,
                ),
            forall|j: int|
                0 <= j < w * cy ==> -2 * (FIELD_MAX as int) <= #[trigger] out@[j] <= 2 * (
                FIELD_MAX as int),
        decreases height - cy,
    {
        let mut cx: usize = 0;
        while cx < width
            invariant
                cx <= width,
                cy < height,
                out@.len() == wh,
                forall|j: int|
                    0 <= j < w * cy + cx ==> (#[trigger] out@[j]) as int == div_cell(
                        vel_x@,
                        vel_y@,
                        w,
                        h,
                        j % w,
                        j / w,
                    ),
                forall|j: int|
                    0 <= j < w * cy + cx ==> -2 * (FIELD_MAX as int) <= #[trigger] out@[j] <= 2 * (
                    FIELD_MAX as int),
            decreases width - cx,
        {
            proof {
                assert(0 <= w * cy && (cx + w * cy) < w * h && (w - 1 + w * cy) < w * h && (cx
                    + w) < w * h && 0 <= w * (h - 2) && (cx + w * (h - 2)) < w * h && (cy + 1 < h
                    ==> (cx + w * (cy + 1)) < w * h) && (cy >= 1 ==> 0 <= cx + w * (cy - 1) && (cx
                    + w * (cy - 1)) < w * h) && w * cy + cx + 1 <= w * (cy + 1))
                    by (nonlinear_arith)
                    requires 0 <= cx < w && 0 <= cy < h && w >= 2 && h >= 2,
                ;
            }
            let dx: i64 = if cx == 0 {
                vel_x[1 + width * cy]
            } else if cx == width - 1 {
                -vel_x[width - 2 + width * cy]
            } else {
                let d: i64 = vel_x[cx + 1 + width * cy] - vel_x[cx - 1 + width * cy];
                proof {
                    lemma_trunc_div_mag(d as int, 2);
                }
                fx_half(d)
            };
            let dy: i64 = if cy == 0 {
                let v = vel_y[cx + width];
                proof {
                    assert(w * 1 == w) by (nonlinear_arith);
                    assert(v as int == div_y(vel_y@, w, h, cx as int, cy as int));
                }
                v
            } else if cy == height - 1 {
                let v = -vel_y[cx + width * (height - 2)];
                proof {
                    assert(v as int == div_y(vel_y@, w, h, cx as int, cy as int));
                }
                v
            } else {
                let d: i64 = vel_y[cx + width * (cy + 1)] - vel_y[cx + width * (cy - 1)];
                proof {
                    lemma_trunc_div_mag(d as int, 2);
                }
                let v = fx_half(d);
                proof {
                    assert(v as int == div_y(vel_y@, w, h, cx as int, cy as int));
                }
                v
            };
            let j0: usize = cx + width * cy;
            out.set(j0, dx + dy);
            proof {
                assert(j0 as int == cy as int * w + cx as int) by (nonlinear_arith)
                    requires j0 as int == cx as int + w * cy as int,
                ;
                lemma_fundamental_div_mod_converse(j0 as int, w, cy as int, cx as int);
                assert(dx as int == div_x(vel_x@, w, cx as int, cy as int));
                assert(dy as int == div_y(vel_y@, w, h, cx as int, cy as int));
            }
            cx += 1;
        }
        proof {
            assert(w * cy + width == w * (cy + 1)) by (nonlinear_arith)
                requires w == width as int,
            ;
        }
        cy += 1;
    }
    proof {
        assert(final(out)@ =~= divergence_field(vel_x@, vel_y@, w, h));
    }
    Ok(())
}

/// Subtracts the discrete pressure gradient from the velocity planes at
/// interior cells; wall cells receive a zero correction.  Fields whose
/// length is not `width * height` are rejected with `ShapeMismatch` and
/// leave the velocity planes unchanged.
#[verifier::loop_isolation(false)]
pub fn apply_pressure(
    pressure: &Vec<i64>,
    width: usize,
    height: usize,
    vel_x: &mut Vec<i64>,
    vel_y: &mut Vec<i64>,
) -> (r: Result<(), SimError>)
    requires
        2 <= width <= MAX_DIM,
        2 <= height <= MAX_DIM,
        seq_bounded(pressure@, FIELD_MAX as int),
        seq_bounded(old(vel_x)@, FIELD_MAX as int),
        seq_bounded(old(vel_y)@, FIELD_MAX as int),
    ensures
        match r {
            Ok(()) => {
                &&& pressure@.len() == width * height
                &&& old(vel_x)@.len() == width * height
                &&& old(vel_y)@.len() == width * height
                &&& final(vel_x)@ == projected_x(
                    old(vel_x)@,
                    pressure@,
                    width as int,
                    height as int,
                )
                &&& final(vel_y)@ == projected_y(
                    old(vel_y)@,
                    pressure@,
                    width as int,
                    height as int,
                )
                &&& seq_bounded(final(vel_x)@, 2 * (FIELD_MAX as int))
                &&& seq_bounded(final(vel_y)@, 2 * (FIELD_MAX as int))
            },
            Err(e) => {
                &&& e == SimError::ShapeMismatch
                &&& !(pressure@.len() == width * height && old(vel_x)@.len() == width * height
                    && old(vel_y)@.len() == width * height)
                &&& final(vel_x)@ == old(vel_x)@
                &&& final(vel_y)@ == old(vel_y)@
            },
        },
{
    proof {
        assert(width * height <= MAX_DIM * MAX_DIM) by (nonlinear_arith)
            requires 2 <= width <= MAX_DIM && 2 <= height <= MAX_DIM,
        ;
    }
    let wh: usize = width * height;
    if pressure.len() != wh || vel_x.len() != wh || vel_y.len() != wh {
        return Err(SimError::ShapeMismatch);
    }
    let ghost w = width as int;
    let ghost h = height as int;
    let mut cy: usize = 0;
    while cy < height
        invariant
            cy <= height,
            vel_x@.len() == wh,
            vel_y@.len() == wh,
            forall|j: int| w * cy <= j < wh ==> #[trigger] vel_x@[j] == old(vel_x)@[j],
            forall|j: int| w * cy <= j < wh ==> #[trigger] vel_y@[j] == old(vel_y)@[j],
            forall|j: int|
                0 <= j < w * cy ==> (#[trigger] vel_x@[j]) as int == old(vel_x)@[j] - grad_x(
                    pressure@,
                    w,
                    j % w,
                    j / w,
                ),
            forall|j: int|
                0 <= j < w * cy ==> (#[trigger] vel_y@[j]) as int == old(vel_y)@[j] - grad_y(
                    pressure@,
                    w,
                    h,
                    j % w,
                    j / w,
                ),
            forall|j: int|
                0 <= j < w * cy ==> -2 * (FIELD_MAX as int) <= #[trigger] vel_x@[j] <= 2 * (
                FIELD_MAX as int),
            forall|j: int|
                0 <= j < w * cy ==> -2 * (FIELD_MAX as int) <= #[trigger] vel_y@[j] <= 2 * (
                FIELD_MAX as int),
        decreases height - cy,
    {
        let mut cx: usize = 0;
        while cx < width
            invariant
                cx <= width,
                cy < height,
                vel_x@.len() == wh,
                vel_y@.len() == wh,
                forall|j: int| w * cy + cx <= j < wh ==> #[trigger] vel_x@[j] == old(vel_x)@[j],
                forall|j: int| w * cy + cx <= j < wh ==> #[trigger] vel_y@[j] == old(vel_y)@[j],
                forall|j: int|
                    0 <= j < w * cy + cx ==> (#[trigger] vel_x@[j]) as int == old(vel_x)@[j]
                        - grad_x(pressure@, w, j % w, j / w),
                forall|j: int|
                    0 <= j < w * cy + cx ==> (#[trigger] vel_y@[j]) as int == old(vel_y)@[j]
                        - grad_y(pressure@, w, h, j % w, j / w),
                forall|j: int|
                    0 <= j < w * cy + cx ==> -2 * (FIELD_MAX as int) <= #[trigger] vel_x@[j] <= 2
                        * (FIELD_MAX as int),
                forall|j: int|
                    0 <= j < w * cy + cx ==> -2 * (FIELD_MAX as int) <= #[trigger] vel_y@[j] <= 2
                        * (FIELD_MAX as int),
            decreases width - cx,
        {
            proof {
                assert(0 <= w * cy && (cx + w * cy) < w * h && (w - 1 + w * cy) < w * h && (cx
                    + w) < w * h && 0 <= w * (h - 2) && (cx + w * (h - 2)) < w * h && (cy + 1 < h
                    ==> (cx + w * (cy + 1)) < w * h) && (cy >= 1 ==> 0 <= cx + w * (cy - 1) && (cx
                    + w * (cy - 1)) < w * h) && w * cy + cx + 1 <= w * (cy + 1))
                    by (nonlinear_arith)
                    requires 0 <= cx < w && 0 <= cy < h && w >= 2 && h >= 2,
                ;
            }
            let gx: i64 = if cx == 0 || cx == width - 1 {
                0
            } else {
                let d: i64 = pressure[cx + 1 + width * cy] - pressure[cx - 1 + width * cy];
                proof {
                    lemma_trunc_div_mag(d as int, 2);
                }
                fx_half(d)
            };
            let gy: i64 = if cy == 0 || cy == height - 1 {
                0
            } else {
                let d: i64 = pressure[cx + width * (cy + 1)] - pressure[cx + width * (cy - 1)];
                proof {
                    lemma_trunc_div_mag(d as int, 2);
                }
                fx_half(d)
            };
            let j0: usize = cx + width * cy;
            let nvx: i64 = vel_x[j0] - gx;
            let nvy: i64 = vel_y[j0] - gy;
            vel_x.set(j0, nvx);
            vel_y.set(j0, nvy);
            proof {
                assert(j0 as int == cy as int * w + cx as int) by (nonlinear_arith)
                    requires j0 as int == cx as int + w * cy as int,
                ;
                lemma_fundamental_div_mod_converse(j0 as int, w, cy as int, cx as int);
                assert(gx as int == grad_x(pressure@, w, cx as int, cy as int));
                assert(gy as int == grad_y(pressure@, w, h, cx as int, cy as int));
            }
            cx += 1;
        }
        proof {
            assert(w * cy + width == w * (cy + 1)) by (nonlinear_arith)
                requires w == width as int,
            ;
        }
        cy += 1;
    }
    proof {
        assert(final(vel_x)@ =~= projected_x(old(vel_x)@, pressure@, w, h));
        assert(final(vel_y)@ =~= projected_y(old(vel_y)@, pressure@, w, h));
    }
    Ok(())
}

} // verus!
