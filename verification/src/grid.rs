//! Flat row-major grid fields and the error taxonomy shared by every step.

use vstd::prelude::*;
use crate::fixed::FIELD_MAX;

verus! {

/// Largest grid dimension the simulation accepts; keeps every linear index
/// and every sample coordinate comfortably inside the machine integer range.
pub const MAX_DIM: usize = 4096;

/// Why a simulation call failed.  Every failure is a programming-contract
/// violation or a detected numeric excursion; none is transient.
#[derive(Clone, Copy, PartialEq, Eq, Structural, Debug)]
pub enum SimError {
    /// Grid dimensions, iteration counts or the source description are
    /// unusable; reported before any step runs.
    Configuration,
    /// A solver or step function was handed fields of unequal length.
    ShapeMismatch,
    /// A field value left the representable range after a step.
    NumericAnomaly,
}

/// Row-major linear index of the cell `(x, y)` in a grid `w` cells wide.
pub open spec fn idx(x: int, y: int, w: int) -> int {
    x + w * y
}

/// Every element of `s` has magnitude at most `m`.
pub open spec fn seq_bounded(s: Seq<i64>, m: int) -> bool {
    forall|i: int| 0 <= i < s.len() ==> -m <= #[trigger] s[i] <= m
}

/// Checks at run time that every element of `v` has magnitude at most
/// `FIELD_MAX`; the simulation driver uses this to detect numeric
/// excursions before they can overflow a later step.
pub fn check_bounded(v: &Vec<i64>) -> (r: bool)
    ensures
        r == seq_bounded(v@, FIELD_MAX as int),
{
    let n = v.len();
    let mut i: usize = 0;
    while i < n
        invariant
            0 <= i <= n,
            n == v@.len(),
            forall|j: int| 0 <= j < i ==> -FIELD_MAX <= #[trigger] v@[j] <= FIELD_MAX,
        decreases n - i,
    {
        let e = v[i];
        if e < -FIELD_MAX || e > FIELD_MAX {
            return false;
        }
        i += 1;
    }
    true
}

} // verus!
