//! Choices of the simplex method and of partial pivoting.
//!
//! The quantities compared here are reals computed by the caller. Each is
//! handed over as an `i64` key whose order agrees with the order of the reals,
//! so that every comparison below is a comparison of the reals themselves.
use vstd::prelude::*;

verus! {

/// Row `i` blocks the entering column: its direction entry exceeds the
/// tolerance.
pub open spec fn blocks(d_keys: Seq<i64>, tol_key: i64, i: int) -> bool {
    0 <= i < d_keys.len() && d_keys[i] > tol_key
}

/// The minimum-ratio test. Among the rows whose direction entry
/// (`d_keys[i]`) exceeds the tolerance, the one with the smallest ratio
/// `x_B[i] / d[i]` (`ratio_keys[i]`), the smallest row on ties; `None` when
/// no row blocks, that is when the entering column's direction has no
/// positive component and the problem is unbounded.
pub fn choose_leaving(d_keys: &Vec<i64>, tol_key: i64, ratio_keys: &Vec<i64>) -> (r: Option<usize>)
    requires
        ratio_keys@.len() == d_keys@.len(),
    ensures
        r is None <==> forall|i: int| !blocks(d_keys@, tol_key, i),
        r is Some ==> {
            let i = r.unwrap() as int;
            &&& blocks(d_keys@, tol_key, i)
            &&& forall|k: int| blocks(d_keys@, tol_key, k) ==> ratio_keys@[i] <= ratio_keys@[k]
            &&& forall|k: int| 0 <= k < i && blocks(d_keys@, tol_key, k) ==> ratio_keys@[i] < ratio_keys@[k]
        },
{
    let mut best: Option<usize> = None;
    let mut i: usize = 0;
    while i < d_keys.len()
        invariant
            i <= d_keys@.len(),
            ratio_keys@.len() == d_keys@.len(),
            best is None <==> forall|k: int| 0 <= k < i ==> !blocks(d_keys@, tol_key, k),
            best is Some ==> {
                let b = best.unwrap() as int;
                &&& b < i
                &&& blocks(d_keys@, tol_key, b)
                &&& forall|k: int| 0 <= k < i && blocks(d_keys@, tol_key, k) ==> ratio_keys@[b] <= ratio_keys@[k]
                &&& forall|k: int| 0 <= k < b && blocks(d_keys@, tol_key, k) ==> ratio_keys@[b] < ratio_keys@[k]
            },
        decreases d_keys@.len() - i,
    {
        if d_keys[i] > tol_key {
            match best {
                None => {
                    best = Some(i);
                },
                Some(b) => {
                    if ratio_keys[i] < ratio_keys[b] {
                        best = Some(i);
                    }
                },
            }
        }
        proof {
            if best is Some {
                assert(blocks(d_keys@, tol_key, best.unwrap() as int));
            }
        }
        i = i + 1;
    }
    best
}

/// Partial pivoting: the row at or below `col` whose entry in column `col`
/// has the largest magnitude (`mag_keys[r]`), the first on ties.
pub fn choose_pivot_row(mag_keys: &Vec<i64>, col: usize) -> (r: usize)
    requires
        col < mag_keys@.len(),
    ensures
        col <= r < mag_keys@.len(),
        forall|k: int| col <= k < mag_keys@.len() ==> mag_keys@[k] <= mag_keys@[r as int],
        forall|k: int| col <= k < r ==> mag_keys@[k] < mag_keys@[r as int],
{
    let n = mag_keys.len();
    let mut best: usize = col;
    let mut k: usize = col + 1;
    while k < mag_keys.len()
        invariant
            col <= best < k <= mag_keys@.len(),
            forall|q: int| col <= q < k ==> mag_keys@[q] <= mag_keys@[best as int],
            forall|q: int| col <= q < best ==> mag_keys@[q] < mag_keys@[best as int],
        decreases mag_keys@.len() - k,
    {
        if mag_keys[k] > mag_keys[best] {
            best = k;
        }
        k = k + 1;
    }
    best
}

/// Phase selection: phase two may start directly from a basis when its basic
/// solution could be computed, when every basic value (`xb_keys[i]`) is at
/// least `-tol` (`neg_tol_key`), and when the residual `A_B x_B - b` is
/// within bound. Otherwise phase one runs.
pub fn starts_feasible(solved: bool, xb_keys: &Vec<i64>, neg_tol_key: i64, residual_ok: bool) -> (r: bool)
    ensures
        r == (solved && residual_ok && forall|i: int| 0 <= i < xb_keys@.len() ==> xb_keys@[i] >= neg_tol_key),
{
    if !solved || !residual_ok {
        return false;
    }
    let mut i: usize = 0;
    while i < xb_keys.len()
        invariant
            i <= xb_keys@.len(),
            forall|k: int| 0 <= k < i ==> xb_keys@[k] >= neg_tol_key,
        decreases xb_keys@.len() - i,
    {
        if xb_keys[i] < neg_tol_key {
            return false;
        }
        i = i + 1;
    }
    true
}

} // verus!
