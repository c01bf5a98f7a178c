//! The constraint matrix together with a basis and its basis matrix.
//!
//! The revised simplex method keeps `B`, the columns of `A` that are basic,
//! next to `A` itself and patches one column of it per pivot instead of
//! rebuilding it. The invariant of `Tableau` is that `B` always equals
//! `A[., basic]`, column for column.
use crate::basis::{Basis, DriveOut};
use crate::matrix::DenseMatrix;
use crate::status::SolveError;
use vstd::prelude::*;

verus! {

/// A constraint matrix `a`, a basis of its columns, and the basis matrix.
pub struct Tableau<T> {
    /// The constraint matrix `A`, one row per constraint.
    pub a: DenseMatrix<T>,
    /// Which columns of `A` are basic, row by row.
    pub basis: Basis,
    /// `B`: column `i` is column `basis.basic[i]` of `A`.
    pub bmat: DenseMatrix<T>,
}

impl<T: Copy> Tableau<T> {
    /// `B` is square with one row and one column per constraint, and holds
    /// the basic columns of `A` in basis order.
    pub open spec fn wf(&self) -> bool {
        &&& self.a.wf()
        &&& self.basis.wf()
        &&& self.basis.n_cols() == self.a.cols
        &&& self.basis.basic@.len() == self.a.rows
        &&& self.bmat.wf()
        &&& self.bmat.rows == self.a.rows
        &&& self.bmat.cols == self.a.rows
        &&& forall|r: int, i: int|
            0 <= r < self.a.rows && 0 <= i < self.a.rows ==> #[trigger] self.bmat.at(r, i) == self.a.at(
                r,
                self.basis.basic@[i] as int,
            )
    }

    /// A tableau for `a` with the given basis, its basis matrix built from
    /// the basic columns.
    pub fn new(a: DenseMatrix<T>, basis: Basis) -> (t: Tableau<T>)
        requires
            a.wf(),
            basis.wf(),
            basis.n_cols() == a.cols,
            basis.basic@.len() == a.rows,
            a.rows * a.rows <= usize::MAX,
        ensures
            t.wf(),
            t.a == a,
            t.basis == basis,
    {
        let bmat = a.select_columns(&basis.basic);
        Tableau { a, basis, bmat }
    }

    /// Pivot: the non-basic column at `enter_pos` enters in row `leave_row`,
    /// and `B` takes its column from `A` in that row's place. Returns the
    /// column that leaves.
    pub fn pivot(&mut self, enter_pos: usize, leave_row: usize) -> (leaving: usize)
        requires
            old(self).wf(),
            enter_pos < old(self).basis.non_basic@.len(),
            leave_row < old(self).basis.basic@.len(),
        ensures
            final(self).wf(),
            final(self).a == old(self).a,
            leaving == old(self).basis.basic@[leave_row as int],
            final(self).basis.basic@ == old(self).basis.basic@.update(
                leave_row as int,
                old(self).basis.non_basic@[enter_pos as int],
            ),
            final(self).basis.non_basic@ == old(self).basis.non_basic@.update(enter_pos as int, leaving),
    {
        let entering = self.basis.non_basic[enter_pos];
        let column = self.a.column(entering);
        let leaving = self.basis.pivot(enter_pos, leave_row);
        self.bmat.set_column(leave_row, &column);
        leaving
    }

    /// Drive an artificial column out of row `row` (see
    /// `Basis::drive_out_artificial`), keeping `B` in step with the basis.
    pub fn drive_out_artificial(
        &mut self,
        row: usize,
        first_artificial: usize,
        nonzero: &Vec<bool>,
        at_zero: bool,
    ) -> (r: Result<DriveOut, SolveError>)
        requires
            old(self).wf(),
            row < old(self).basis.basic@.len(),
            nonzero@.len() == old(self).basis.non_basic@.len(),
        ensures
            final(self).wf(),
            final(self).a == old(self).a,
            old(self).basis.basic@[row as int] < first_artificial ==> r == Ok::<DriveOut, SolveError>(
                DriveOut::NotArtificial,
            ) && final(self).basis == old(self).basis,
            old(self).basis.basic@[row as int] >= first_artificial ==> {
                &&& forall|p: int|
                    old(self).basis.first_replacement(nonzero@, first_artificial, p) ==> {
                        &&& r == Ok::<DriveOut, SolveError>(
                            DriveOut::Replaced {
                                position: p as usize,
                                column: old(self).basis.non_basic@[p],
                            },
                        )
                        &&& final(self).basis.basic@ == old(self).basis.basic@.update(
                            row as int,
                            old(self).basis.non_basic@[p],
                        )
                        &&& final(self).basis.non_basic@ == old(self).basis.non_basic@.update(
                            p,
                            old(self).basis.basic@[row as int],
                        )
                    }
                &&& (forall|p: int| !old(self).basis.may_replace(nonzero@, first_artificial, p)) ==> {
                    &&& final(self).basis == old(self).basis
                    &&& at_zero ==> r == Ok::<DriveOut, SolveError>(DriveOut::KeptDegenerate)
                    &&& !at_zero ==> crate::basis::is_stuck_artificial(r)
                }
            },
    {
        let r = self.basis.drive_out_artificial(row, first_artificial, nonzero, at_zero);
        match r {
            Ok(DriveOut::Replaced { position: _, column }) => {
                let values = self.a.column(column);
                self.bmat.set_column(row, &values);
            },
            _ => {},
        }
        r
    }
}

} // verus!
