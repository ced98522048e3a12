//! The generic Jacobi stencil solver.
//!
//! A linear system `A x = b` whose matrix is a fixed local stencil is
//! described by `id_inverse` (the reciprocal of the diagonal entry) and a
//! sequence of off-diagonal [`StencilElement`]s.  One call of
//! [`jacobi_iter`] performs a single out-of-place Jacobi sweep; the caller
//! drives convergence by repeated calls with ping-pong buffering.

use vstd::prelude::*;
use crate::fixed::{FX_SCALE, FIELD_MAX, fx_mul, fx_mul_s, lemma_fx_mul_bound};
use crate::grid::{SimError, seq_bounded};

verus! {

/// One off-diagonal term of the system matrix: a linear-index delta and a
/// fixed-point coefficient.
#[derive(Clone, Copy, PartialEq, Eq, Structural, Debug)]
pub struct StencilElement {
    pub offset: i64,
    pub value: i64,
}

/// The contribution of one stencil element to row `i`: the previous
/// iterate at the offset cell, scaled by the element's coefficient and by
/// `id_inverse`.  An offset that would leave the field contributes nothing
/// (the term is omitted, not reflected or wrapped).
pub open spec fn stencil_term(s: StencilElement, id_inverse: int, x: Seq<i64>, i: int) -> int {
    if 0 <= i + s.offset && i + s.offset < x.len() {
        fx_mul_s(x[i + s.offset] as int, fx_mul_s(s.value as int, id_inverse))
    } else {
        0
    }
}

/// The value one Jacobi sweep assigns to cell `i`: the right-hand side
/// scaled by `id_inverse`, minus the contribution of every stencil
/// element in order.
pub open spec fn jacobi_cell(
    id_inverse: int,
    st: Seq<StencilElement>,
    x: Seq<i64>,
    b: Seq<i64>,
    i: int,
) -> int
    decreases st.len(),
{
    if st.len() == 0 {
        fx_mul_s(b[i] as int, id_inverse)
    } else {
        jacobi_cell(id_inverse, st.drop_last(), x, b, i) - stencil_term(
            st.last(),
            id_inverse,
            x,
            i,
        )
    }
}

/// The machine-range conditions the solver needs of a system description:
/// `id_inverse` and every effective multiplier have magnitude at most one
/// unit (a diagonally dominated system always satisfies this), and the
/// element count is small enough that the accumulated row sum fits in an
/// `i64`.
pub open spec fn stencil_ok(st: Seq<StencilElement>, id_inverse: int) -> bool {
    &&& -(FX_SCALE as int) <= id_inverse <= FX_SCALE as int
    &&& forall|k: int|
        0 <= k < st.len() ==> {
            &&& -FIELD_MAX <= (#[trigger] st[k]).value <= FIELD_MAX
            &&& -FIELD_MAX <= st[k].offset <= FIELD_MAX
            &&& -(FX_SCALE as int) <= fx_mul_s(st[k].value as int, id_inverse) <= FX_SCALE as int
        }
    &&& (st.len() + 1) * (FIELD_MAX as int) < 0x4000_0000_0000_0000
}

/// One Jacobi sweep: writes into `x_n`, for every cell `i`, the value
/// `jacobi_cell(id_inverse, stencil, x, b, i)`.  The previous iterate `x`
/// is left untouched, so every row's update sees only the previous sweep.
/// The three fields must have equal lengths; unequal lengths are rejected
/// with `ShapeMismatch` and leave `x_n` unchanged.
#[verifier::loop_isolation(false)]
pub fn jacobi_iter(
    id_inverse: i64,
    stencil: &Vec<StencilElement>,
    x: &Vec<i64>,
    x_n: &mut Vec<i64>,
    b: &Vec<i64>,
) -> (r: Result<(), SimError>)
    requires
        seq_bounded(x@, FIELD_MAX as int),
        seq_bounded(b@, FIELD_MAX as int),
        stencil_ok(stencil@, id_inverse as int),
        x@.len() < 0x40_0000_0000,
    ensures
        match r {
            Ok(()) => {
                &&& x@.len() == b@.len() && old(x_n)@.len() == x@.len()
                &&& final(x_n)@.len() == x@.len()
                &&& forall|i: int|
                    0 <= i < x@.len() ==> final(x_n)@[i] == jacobi_cell(
                        id_inverse as int,
                        stencil@,
                        x@,
                        b@,
                        i,
                    )
            },
            Err(e) => {
                &&& e == SimError::ShapeMismatch
                &&& !(x@.len() == b@.len() && old(x_n)@.len() == x@.len())
                &&& final(x_n)@ == old(x_n)@
            },
        },
{
    if x.len() != b.len() || x_n.len() != x.len() {
        return Err(SimError::ShapeMismatch);
    }
    let idi = id_inverse;
    let n = stencil.len();
    let mut mults: Vec<i64> = Vec::new();
    let mut k: usize = 0;
    while k < n
        invariant
            mults@.len() == k,
            k <= n,
            forall|j: int|
                0 <= j < k ==> #[trigger] mults@[j] == fx_mul_s(
                    stencil@[j].value as int,
                    idi as int,
                ),
        decreases n - k,
    {
        let s = stencil[k];
        proof {
            assert(-0x4000_0000_0000_0000 <= s.value as int * idi as int
                <= 0x4000_0000_0000_0000) by (nonlinear_arith)
                requires
                    -FIELD_MAX <= s.value as int <= FIELD_MAX,
                    -(FX_SCALE as int) <= idi as int <= FX_SCALE as int,
            ;
        }
        let m = fx_mul(s.value, idi);
        mults.push(m);
        k += 1;
    }
    let len = x.len();
    let mut i: usize = 0;
    while i < len
        invariant
            i <= len,
            x_n@.len() == len,
            forall|j: int|
                0 <= j < i ==> #[trigger] x_n@[j] == jacobi_cell(
                    idi as int,
                    stencil@,
                    x@,
                    b@,
                    j,
                ),
        decreases len - i,
    {
        proof {
            assert(-0x4000_0000_0000_0000 <= b@[i as int] as int * idi as int
                <= 0x4000_0000_0000_0000) by (nonlinear_arith)
                requires
                    -FIELD_MAX <= b@[i as int] as int <= FIELD_MAX,
                    -(FX_SCALE as int) <= idi as int <= FX_SCALE as int,
            ;
        }
        let mut acc: i64 = fx_mul(b[i], idi);
        proof {
            assert(stencil@.take(0) =~= Seq::<StencilElement>::empty());
            lemma_fx_mul_bound(b@[i as int] as int, idi as int, FIELD_MAX as int);
        }
        let mut k: usize = 0;
        while k < n
            invariant
                k <= n,
                acc as int == jacobi_cell(idi as int, stencil@.take(k as int), x@, b@, i as int),
                -((k + 1) * (FIELD_MAX as int)) <= acc as int <= (k + 1) * (FIELD_MAX as int),
            decreases n - k,
        {
            let off = stencil[k].offset;
            let pos: i64 = i as i64 + off;
            let ghost acc_pre = acc as int;
            if 0 <= pos && pos < len as i64 {
                let xv = x[pos as usize];
                let mu = mults[k];
                proof {
                    assert(-0x4000_0000_0000_0000 <= xv as int * mu as int
                        <= 0x4000_0000_0000_0000) by (nonlinear_arith)
                        requires
                            -FIELD_MAX <= xv as int <= FIELD_MAX,
                            -(FX_SCALE as int) <= mu as int <= FX_SCALE as int,
                    ;
                }
                let t = fx_mul(xv, mu);
                proof {
                    lemma_fx_mul_bound(xv as int, mu as int, FIELD_MAX as int);
                    assert((k + 2) * (FIELD_MAX as int) <= (n + 1) * (FIELD_MAX as int))
                        by (nonlinear_arith)
                        requires k + 2 <= n + 1 && FIELD_MAX as int >= 0,
                    ;
                    assert((k + 2) * (FIELD_MAX as int) == (k + 1) * (FIELD_MAX as int)
                        + FIELD_MAX as int) by (nonlinear_arith);
                }
                acc = acc - t;
            }
            proof {
                let st = stencil@;
                assert(st.take(k as int + 1).drop_last() =~= st.take(k as int));
                assert(st.take(k as int + 1).last() == st[k as int]);
                assert(acc as int == acc_pre - stencil_term(st[k as int], idi as int, x@, i as int));
                assert((k + 2) * (FIELD_MAX as int) == (k + 1) * (FIELD_MAX as int)
                    + FIELD_MAX as int) by (nonlinear_arith);
                if !(0 <= i as int + st[k as int].offset && i as int + st[k as int].offset
                    < x@.len()) {
                    assert(stencil_term(st[k as int], idi as int, x@, i as int) == 0);
                }
            }
            k += 1;
        }
        proof {
            assert(stencil@.take(n as int) =~= stencil@);
        }
        x_n.set(i, acc);
        i += 1;
    }
    Ok(())
}

/// The field produced by `sweeps` successive Jacobi sweeps from the
/// initial iterate `p0`, ping-ponging so each sweep reads the previous
/// sweep's output.
pub open spec fn jacobi_iterates(
    id_inverse: int,
    st: Seq<StencilElement>,
    p0: Seq<i64>,
    b: Seq<i64>,
    sweeps: nat,
) -> Seq<i64>
    decreases sweeps,
{
    if sweeps == 0 {
        p0
    } else {
        let prev = jacobi_iterates(id_inverse, st, p0, b, (sweeps - 1) as nat);
        Seq::new(p0.len(), |i: int| jacobi_cell(id_inverse, st, prev, b, i) as i64)
    }
}

/// Boundary omission: a single-element stencil whose offset would reach
/// outside the field contributes nothing to cell `i`, which therefore
/// receives only its right-hand-side term.
pub proof fn lemma_boundary_omission(
    id_inverse: int,
    s: StencilElement,
    x: Seq<i64>,
    b: Seq<i64>,
    i: int,
)
    requires
        !(0 <= i + s.offset && i + s.offset < x.len()),
    ensures
        jacobi_cell(id_inverse, seq![s], x, b, i) == fx_mul_s(b[i] as int, id_inverse),
{
    let st = seq![s];
    assert(st.drop_last() =~= Seq::<StencilElement>::empty());
    assert(st.last() == s);
    assert(stencil_term(s, id_inverse, x, i) == 0);
    assert(jacobi_cell(id_inverse, Seq::<StencilElement>::empty(), x, b, i) == fx_mul_s(
        b[i] as int,
        id_inverse,
    ));
}

} // verus!
