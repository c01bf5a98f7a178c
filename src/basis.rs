use crate::status::SolveError;
use vstd::prelude::*;

verus! {

/// What became of one row when artificial columns are driven out of the basis.
#[derive(Copy, Clone, Debug, PartialEq, Eq, Structural)]
pub enum DriveOut {
    /// The row's basic column is not artificial: nothing to do.
    NotArtificial,
    /// The non-basic column at `position`, `column`, replaced the artificial one.
    Replaced { position: usize, column: usize },
    /// No model column can replace it, and the row's value is zero: the
    /// artificial column stays basic at zero (a redundant row).
    KeptDegenerate,
}

/// The text of the error for an artificial column that cannot leave the basis.
pub open spec fn stuck_artificial_text() -> Seq<char> {
    "artificial variable left in basis with non-zero value"@
}

/// `r` is the structural error for a stuck artificial column.
pub open spec fn is_stuck_artificial(r: Result<DriveOut, SolveError>) -> bool {
    match r {
        Err(SolveError::InvalidModel(m)) => m@ == stuck_artificial_text(),
        _ => false,
    }
}

/// The values of `s` rise strictly from left to right.
pub open spec fn increasing(s: Seq<usize>) -> bool {
    forall|i: int, j: int| 0 <= i < j < s.len() ==> s[i] < s[j]
}

/// Column `j` is the first whose single unit entry sits in row `r`.
pub open spec fn first_unit_column(unit_rows: Seq<Option<usize>>, r: usize, j: int) -> bool {
    &&& 0 <= j < unit_rows.len()
    &&& unit_rows[j] == Some(r)
    &&& forall|k: int| 0 <= k < j ==> unit_rows[k] != Some(r)
}

/// Some column has its single unit entry in row `r`.
pub open spec fn has_unit_column(unit_rows: Seq<Option<usize>>, r: usize) -> bool {
    exists|j: int| 0 <= j < unit_rows.len() && unit_rows[j] == Some(r)
}

/// Every row `r < m` has some column whose single unit entry sits in it.
pub open spec fn covers(unit_rows: Seq<Option<usize>>, m: nat) -> bool {
    forall|r: usize| (r as nat) < m ==> #[trigger] has_unit_column(unit_rows, r)
}

/// A split of the columns `0..n_cols()` of a tableau into the basic columns,
/// one per row, and the non-basic ones, in the order in which pricing scans
/// them.
pub struct Basis {
    /// `basic[i]` is the column basic in row `i`.
    pub basic: Vec<usize>,
    /// The remaining columns.
    pub non_basic: Vec<usize>,
}

impl Basis {
    /// Number of columns that the basis splits.
    pub open spec fn n_cols(&self) -> nat {
        self.basic@.len() + self.non_basic@.len()
    }

    /// Every column `c < n_cols()` stands exactly once in exactly one of the
    /// two lists, and no other value stands in them.
    pub open spec fn wf(&self) -> bool {
        &&& self.basic@.no_duplicates()
        &&& self.non_basic@.no_duplicates()
        &&& forall|i: int| 0 <= i < self.basic@.len() ==> (self.basic@[i] as nat) < self.n_cols()
        &&& forall|p: int|
            0 <= p < self.non_basic@.len() ==> (self.non_basic@[p] as nat) < self.n_cols()
        &&& forall|i: int, p: int|
            0 <= i < self.basic@.len() && 0 <= p < self.non_basic@.len() ==> self.basic@[i]
                != self.non_basic@[p]
        &&& forall|c: usize|
            (c as nat) < self.n_cols() ==> #[trigger] self.basic@.contains(c)
                || self.non_basic@.contains(c)
    }

    /// The split `basic = [0, m)`, `non_basic = [m, n)`.
    pub open spec fn is_leading_split(&self, m: nat, n: nat) -> bool {
        &&& self.basic@.len() == m
        &&& self.non_basic@.len() + m == n
        &&& forall|i: int| 0 <= i < m ==> self.basic@[i] == i
        &&& forall|p: int| 0 <= p < self.non_basic@.len() ==> self.non_basic@[p] == m + p
    }

    /// Basic columns `[first, first + m)` and non-basic columns `[0, first)`:
    /// the starting point of phase one, with one artificial column per row
    /// placed after the `first` columns of the tableau.
    pub open spec fn is_artificial_start(&self, first: nat, m: nat) -> bool {
        &&& self.basic@.len() == m
        &&& self.non_basic@.len() == first
        &&& forall|i: int| 0 <= i < m ==> self.basic@[i] == first + i
        &&& forall|p: int| 0 <= p < first ==> self.non_basic@[p] == p
    }

    /// `[lo, hi)` as a vector.
    fn range_vec(lo: usize, hi: usize) -> (r: Vec<usize>)
        requires
            lo <= hi,
        ensures
            r@.len() == hi - lo,
            forall|i: int| 0 <= i < r@.len() ==> r@[i] == lo + i,
    {
        let mut r: Vec<usize> = Vec::new();
        let mut c: usize = lo;
        while c < hi
            invariant
                lo <= c <= hi,
                r@.len() == c - lo,
                forall|i: int| 0 <= i < r@.len() ==> r@[i] == lo + i,
            decreases hi - c,
        {
            r.push(c);
            c = c + 1;
        }
        r
    }

    /// Rows take columns `[0, m)` in order; the other columns are non-basic.
    pub fn leading_split(m: usize, n: usize) -> (r: Basis)
        requires
            m <= n,
        ensures
            r.wf(),
            r.n_cols() == n,
            r.is_leading_split(m as nat, n as nat),
    {
        let basic = Self::range_vec(0, m);
        let non_basic = Self::range_vec(m, n);
        let r = Basis { basic, non_basic };
        assert forall|c: usize| (c as nat) < r.n_cols() implies #[trigger] r.basic@.contains(c)
            || r.non_basic@.contains(c) by {
            if c < m {
                assert(r.basic@[c as int] == c);
            } else {
                assert(r.non_basic@[c - m] == c);
            }
        }
        r
    }

    /// The phase-one start: with `first` columns in the tableau and one
    /// artificial column added per row, each row takes its artificial column.
    pub fn artificial_start(first: usize, m: usize) -> (r: Basis)
        requires
            first + m <= usize::MAX,
        ensures
            r.wf(),
            r.n_cols() == first + m,
            r.is_artificial_start(first as nat, m as nat),
    {
        let basic = Self::range_vec(first, first + m);
        let non_basic = Self::range_vec(0, first);
        let r = Basis { basic, non_basic };
        assert forall|c: usize| (c as nat) < r.n_cols() implies #[trigger] r.basic@.contains(c)
            || r.non_basic@.contains(c) by {
            if c < first {
                assert(r.non_basic@[c as int] == c);
            } else {
                assert(r.basic@[c - first] == c);
            }
        }
        r
    }

    /// The initial basis of a tableau with `m` rows and `unit_rows.len()`
    /// columns. `unit_rows[j]` is `Some(r)` when column `j` is identity-like:
    /// its only nonzero entry is a one in row `r`.
    ///
    /// When every row has such a column, row `r` takes the first of them and
    /// the other columns stay non-basic in increasing order. Otherwise the
    /// rows take the leading columns `[0, m)`, a placeholder that phase one
    /// replaces, or there is no basis at all when the tableau has fewer
    /// columns than rows.
    pub fn init_basis(unit_rows: &Vec<Option<usize>>, m: usize) -> (r: Option<Basis>)
        ensures
            covers(unit_rows@, m as nat) ==> {
                &&& r is Some
                &&& r.unwrap().wf()
                &&& r.unwrap().n_cols() == unit_rows@.len()
                &&& r.unwrap().basic@.len() == m
                &&& forall|i: int|
                    0 <= i < m ==> first_unit_column(
                        unit_rows@,
                        i as usize,
                        #[trigger] r.unwrap().basic@[i] as int,
                    )
                &&& increasing(r.unwrap().non_basic@)
            },
            !covers(unit_rows@, m as nat) && m <= unit_rows@.len() ==> {
                &&& r is Some
                &&& r.unwrap().wf()
                &&& r.unwrap().n_cols() == unit_rows@.len()
                &&& r.unwrap().is_leading_split(m as nat, unit_rows@.len())
            },
            !covers(unit_rows@, m as nat) && m > unit_rows@.len() ==> r is None,
    {
        let n = unit_rows.len();
        let mut cover: Vec<Option<usize>> = Vec::new();
        let mut i: usize = 0;
        while i < m
            invariant
                i <= m,
                cover@.len() == i,
                forall|k: int| 0 <= k < i ==> cover@[k] is None,
            decreases m - i,
        {
            cover.push(None);
            i = i + 1;
        }
        let mut used: Vec<bool> = Vec::new();
        let mut j: usize = 0;
        while j < n
            invariant
                j <= n,
                n == unit_rows@.len(),
                used@.len() == j,
                forall|k: int| 0 <= k < j ==> !used@[k],
            decreases n - j,
        {
            used.push(false);
            j = j + 1;
        }
        let ghost rows = unit_rows@;
        j = 0;
        while j < n
            invariant
                j <= n,
                n == rows.len(),
                rows == unit_rows@,
                cover@.len() == m,
                used@.len() == n,
                forall|r: int|
                    0 <= r < m ==> match #[trigger] cover@[r] {
                        Some(c) => (c as int) < j && first_unit_column(rows, r as usize, c as int),
                        None => forall|k: int| 0 <= k < j ==> rows[k] != Some(r as usize),
                    },
                forall|k: int|
                    0 <= k < n ==> #[trigger] used@[k] == (k < j && rows[k] is Some && (rows[k]->0 as int) < m
                        && cover@[rows[k]->0 as int] == Some(k as usize)),
            decreases n - j,
        {
            match unit_rows[j] {
                Some(r) => {
                    if r < m && cover[r].is_none() {
                        cover.set(r, Some(j));
                        used.set(j, true);
                    }
                },
                None => {},
            }
            j = j + 1;
        }
        let mut all = true;
        i = 0;
        while i < m
            invariant
                i <= m,
                cover@.len() == m,
                all == forall|k: int| 0 <= k < i ==> cover@[k] is Some,
            decreases m - i,
        {
            if cover[i].is_none() {
                all = false;
            }
            i = i + 1;
        }
        proof {
            if all {
                assert forall|r: usize| (r as nat) < m implies #[trigger] has_unit_column(rows, r) by {
                    assert(cover@[r as int] is Some);
                    let c = cover@[r as int]->0;
                    assert(rows[c as int] == Some(r));
                }
            } else {
                let k = choose|k: int| 0 <= k < m && !(cover@[k] is Some);
                assert(!has_unit_column(rows, k as usize));
            }
        }
        if !all {
            if m <= n {
                return Some(Self::leading_split(m, n));
            } else {
                return None;
            }
        }
        let mut basic: Vec<usize> = Vec::new();
        i = 0;
        while i < m
            invariant
                i <= m,
                cover@.len() == m,
                forall|k: int| 0 <= k < m ==> cover@[k] is Some,
                basic@.len() == i,
                forall|k: int| 0 <= k < i ==> Some(#[trigger] basic@[k]) == cover@[k],
            decreases m - i,
        {
            match cover[i] {
                Some(c) => basic.push(c),
                None => {},
            }
            i = i + 1;
        }
        let mut non_basic: Vec<usize> = Vec::new();
        j = 0;
        while j < n
            invariant
                j <= n,
                used@.len() == n,
                increasing(non_basic@),
                forall|p: int|
                    0 <= p < non_basic@.len() ==> (#[trigger] non_basic@[p] as int) < j && !used@[non_basic@[p] as int],
                forall|c: usize| c < j && !used@[c as int] ==> #[trigger] non_basic@.contains(c),
                non_basic@.len() <= j,
            decreases n - j,
        {
            let ghost before = non_basic@;
            if !used[j] {
                non_basic.push(j);
                assert(non_basic@[non_basic@.len() - 1] == j);
            }
            assert forall|c: usize| c < j + 1 && !used@[c as int] implies #[trigger] non_basic@.contains(c) by {
                if c < j {
                    assert(before.contains(c));
                    let k = choose|k: int| 0 <= k < before.len() && before[k] == c;
                    assert(non_basic@[k] == c);
                } else {
                    assert(non_basic@[non_basic@.len() - 1] == c);
                }
            }
            j = j + 1;
        }
        let b = Basis { basic, non_basic };
        proof {
            // Basic columns are exactly the used ones, one row each.
            assert forall|k: int| 0 <= k < m implies used@[#[trigger] b.basic@[k] as int] by {
                let c = b.basic@[k];
                assert(first_unit_column(rows, k as usize, c as int));
            }
            assert(b.basic@.no_duplicates()) by {
                assert forall|x: int, y: int|
                    0 <= x < b.basic@.len() && 0 <= y < b.basic@.len() && x != y implies b.basic@[x]
                    != b.basic@[y] by {
                    assert(first_unit_column(rows, x as usize, b.basic@[x] as int));
                    assert(first_unit_column(rows, y as usize, b.basic@[y] as int));
                }
            }
            assert(b.non_basic@.no_duplicates()) by {
                assert forall|x: int, y: int|
                    0 <= x < b.non_basic@.len() && 0 <= y < b.non_basic@.len() && x != y implies b.non_basic@[x]
                    != b.non_basic@[y] by {
                    if x < y {
                        assert(b.non_basic@[x] < b.non_basic@[y]);
                    } else {
                        assert(b.non_basic@[y] < b.non_basic@[x]);
                    }
                }
            }
            assert forall|c: usize| (c as nat) < n implies #[trigger] b.basic@.contains(c)
                || b.non_basic@.contains(c) by {
                if used@[c as int] {
                    let r = rows[c as int]->0;
                    assert(b.basic@[r as int] == c);
                } else {
                    assert(b.non_basic@.contains(c));
                }
            }
            lemma_partition_size(b.basic@, b.non_basic@, n as nat);
        }
        Some(b)
    }

    /// Column `non_basic[p]` may enter: it lies below `limit` and its
    /// reduced cost key exceeds the tolerance key.
    pub open spec fn may_enter(&self, rc_keys: Seq<i64>, tol_key: i64, limit: usize, p: int) -> bool {
        &&& 0 <= p < self.non_basic@.len()
        &&& self.non_basic@[p] < limit
        &&& rc_keys[p] > tol_key
    }

    /// Dantzig's rule. `rc_keys[p]` orders the reduced cost of column
    /// `non_basic[p]` as the reals are ordered. Among the non-basic columns
    /// below `limit` whose reduced cost exceeds the tolerance, the position of
    /// the one with the largest reduced cost, the earliest on ties; `None`
    /// when no column may enter, that is when the basis is optimal.
    pub fn choose_entering(&self, rc_keys: &Vec<i64>, tol_key: i64, limit: usize) -> (r: Option<usize>)
        requires
            rc_keys@.len() == self.non_basic@.len(),
        ensures
            r is None <==> forall|q: int| !self.may_enter(rc_keys@, tol_key, limit, q),
            r is Some ==> {
                let p = r.unwrap() as int;
                &&& self.may_enter(rc_keys@, tol_key, limit, p)
                &&& forall|q: int| self.may_enter(rc_keys@, tol_key, limit, q) ==> rc_keys@[q] <= rc_keys@[p]
                &&& forall|q: int| 0 <= q < p && self.may_enter(rc_keys@, tol_key, limit, q) ==> rc_keys@[q] < rc_keys@[p]
            },
    {
        let mut best: Option<usize> = None;
        let mut p: usize = 0;
        while p < self.non_basic.len()
            invariant
                p <= self.non_basic@.len(),
                rc_keys@.len() == self.non_basic@.len(),
                best is None <==> forall|q: int| 0 <= q < p ==> !self.may_enter(rc_keys@, tol_key, limit, q),
                best is Some ==> {
                    let b = best.unwrap() as int;
                    &&& b < p
                    &&& self.may_enter(rc_keys@, tol_key, limit, b)
                    &&& forall|q: int| 0 <= q < p && self.may_enter(rc_keys@, tol_key, limit, q) ==> rc_keys@[q] <= rc_keys@[b]
                    &&& forall|q: int| 0 <= q < b && self.may_enter(rc_keys@, tol_key, limit, q) ==> rc_keys@[q] < rc_keys@[b]
                },
            decreases self.non_basic@.len() - p,
        {
            if self.non_basic[p] < limit && rc_keys[p] > tol_key {
                match best {
                    None => {
                        best = Some(p);
                    },
                    Some(b) => {
                        if rc_keys[p] > rc_keys[b] {
                            best = Some(p);
                        }
                    },
                }
            }
            proof {
                if best is Some {
                    assert(self.may_enter(rc_keys@, tol_key, limit, best.unwrap() as int));
                }
            }
            p = p + 1;
        }
        best
    }

    /// Exchange the column basic in `leave_row` with the non-basic column at
    /// position `enter_pos`; returns the column that leaves the basis.
    pub fn pivot(&mut self, enter_pos: usize, leave_row: usize) -> (leaving: usize)
        requires
            old(self).wf(),
            enter_pos < old(self).non_basic@.len(),
            leave_row < old(self).basic@.len(),
        ensures
            final(self).wf(),
            leaving == old(self).basic@[leave_row as int],
            final(self).basic@ == old(self).basic@.update(leave_row as int, old(self).non_basic@[enter_pos as int]),
            final(self).non_basic@ == old(self).non_basic@.update(enter_pos as int, leaving),
    {
        let ghost b0 = self.basic@;
        let ghost n0 = self.non_basic@;
        let entering = self.non_basic[enter_pos];
        let leaving = self.basic[leave_row];
        self.basic.set(leave_row, entering);
        self.non_basic.set(enter_pos, leaving);
        proof {
            lemma_swap_keeps_partition(b0, n0, leave_row as int, enter_pos as int);
        }
        leaving
    }

    /// Values of the model's variables from the values of the basic ones:
    /// variable `j < n_vars` gets `x_b[i]` when column `j` is basic in row
    /// `i`, and `zero` when it is non-basic.
    pub fn basic_values<T: Copy>(&self, x_b: &Vec<T>, n_vars: usize, zero: T) -> (r: Vec<T>)
        requires
            self.wf(),
            x_b@.len() == self.basic@.len(),
        ensures
            r@.len() == n_vars,
            forall|i: int| 0 <= i < self.basic@.len() && self.basic@[i] < n_vars ==> r@[self.basic@[i] as int] == x_b@[i],
            forall|j: usize| j < n_vars && !self.basic@.contains(j) ==> r@[j as int] == zero,
    {
        let mut r: Vec<T> = Vec::new();
        let mut j: usize = 0;
        while j < n_vars
            invariant
                j <= n_vars,
                r@.len() == j,
                forall|k: int| 0 <= k < j ==> r@[k] == zero,
            decreases n_vars - j,
        {
            r.push(zero);
            j = j + 1;
        }
        let mut i: usize = 0;
        while i < self.basic.len()
            invariant
                self.wf(),
                i <= self.basic@.len(),
                x_b@.len() == self.basic@.len(),
                r@.len() == n_vars,
                forall|k: int| 0 <= k < i && self.basic@[k] < n_vars ==> r@[self.basic@[k] as int] == x_b@[k],
                forall|c: int| 0 <= c < n_vars && (forall|k: int| 0 <= k < i ==> self.basic@[k] != c) ==> r@[c] == zero,
            decreases self.basic@.len() - i,
        {
            let c = self.basic[i];
            if c < n_vars {
                r.set(c, x_b[i]);
            }
            proof {
                assert forall|k: int| 0 <= k < i + 1 && self.basic@[k] < n_vars implies r@[self.basic@[k] as int] == x_b@[k] by {
                    if k < i {
                        assert(self.basic@[k] != self.basic@[i as int]);
                    }
                }
            }
            i = i + 1;
        }
        proof {
            assert forall|j: usize| j < n_vars && !self.basic@.contains(j) implies r@[j as int] == zero by {
                assert forall|k: int| 0 <= k < self.basic@.len() implies self.basic@[k] != j by {
                    if self.basic@[k] == j {
                        assert(self.basic@.contains(j));
                    }
                }
            }
        }
        r
    }

    /// The entries of `c` at the basic columns, row by row (`c_B`).
    pub fn basic_costs<T: Copy>(&self, c: &Vec<T>) -> (r: Vec<T>)
        requires
            self.wf(),
            c@.len() == self.n_cols(),
        ensures
            r@.len() == self.basic@.len(),
            forall|i: int| 0 <= i < self.basic@.len() ==> r@[i] == c@[self.basic@[i] as int],
    {
        let mut r: Vec<T> = Vec::new();
        let mut i: usize = 0;
        while i < self.basic.len()
            invariant
                self.wf(),
                c@.len() == self.n_cols(),
                i <= self.basic@.len(),
                r@.len() == i,
                forall|k: int| 0 <= k < i ==> r@[k] == c@[self.basic@[k] as int],
            decreases self.basic@.len() - i,
        {
            r.push(c[self.basic[i]]);
            i = i + 1;
        }
        r
    }

    /// The non-basic column at position `p` is a model column (below
    /// `first_artificial`) whose tableau entry in the row at hand is nonzero.
    pub open spec fn may_replace(&self, nonzero: Seq<bool>, first_artificial: usize, p: int) -> bool {
        &&& 0 <= p < self.non_basic@.len()
        &&& self.non_basic@[p] < first_artificial
        &&& nonzero[p]
    }

    /// `p` is the first position that may replace the artificial column.
    pub open spec fn first_replacement(&self, nonzero: Seq<bool>, first_artificial: usize, p: int) -> bool {
        &&& self.may_replace(nonzero, first_artificial, p)
        &&& forall|q: int| 0 <= q < p ==> !self.may_replace(nonzero, first_artificial, q)
    }

    /// Drive an artificial column out of row `row`. Columns from
    /// `first_artificial` on are artificial. `nonzero[p]` tells whether the
    /// tableau entry of column `non_basic[p]` in this row is nonzero, and
    /// `at_zero` whether the row's basic value is zero.
    ///
    /// The first non-basic model column with a nonzero entry replaces the
    /// artificial one. When there is none, the artificial column stays basic
    /// if its value is zero, and otherwise the rows are inconsistent and the
    /// call fails with `InvalidModel`, leaving the basis as it was.
    pub fn drive_out_artificial(
        &mut self,
        row: usize,
        first_artificial: usize,
        nonzero: &Vec<bool>,
        at_zero: bool,
    ) -> (r: Result<DriveOut, SolveError>)
        requires
            old(self).wf(),
            row < old(self).basic@.len(),
            nonzero@.len() == old(self).non_basic@.len(),
        ensures
            final(self).wf(),
            r matches Ok(DriveOut::Replaced { position, column }) ==> {
                &&& old(self).first_replacement(nonzero@, first_artificial, position as int)
                &&& column == old(self).non_basic@[position as int]
                &&& final(self).basic@ == old(self).basic@.update(row as int, column)
                &&& final(self).non_basic@ == old(self).non_basic@.update(position as int, old(self).basic@[row as int])
            },
            !(r matches Ok(DriveOut::Replaced { .. })) ==> *final(self) == *old(self),
            old(self).basic@[row as int] < first_artificial ==> r == Ok::<DriveOut, SolveError>(
                DriveOut::NotArtificial,
            ) && *final(self) == *old(self),
            old(self).basic@[row as int] >= first_artificial ==> {
                &&& forall|p: int|
                    old(self).first_replacement(nonzero@, first_artificial, p) ==> {
                        &&& r == Ok::<DriveOut, SolveError>(
                            DriveOut::Replaced { position: p as usize, column: old(self).non_basic@[p] },
                        )
                        &&& final(self).basic@ == old(self).basic@.update(row as int, old(self).non_basic@[p])
                        &&& final(self).non_basic@ == old(self).non_basic@.update(p, old(self).basic@[row as int])
                    }
                &&& (forall|p: int| !old(self).may_replace(nonzero@, first_artificial, p)) ==> {
                    &&& *final(self) == *old(self)
                    &&& at_zero ==> r == Ok::<DriveOut, SolveError>(DriveOut::KeptDegenerate)
                    &&& !at_zero ==> is_stuck_artificial(r)
                }
            },
    {
        if self.basic[row] < first_artificial {
            return Ok(DriveOut::NotArtificial);
        }
        let mut p: usize = 0;
        while p < self.non_basic.len()
            invariant
                *self == *old(self),
                old(self).wf(),
                row < old(self).basic@.len(),
                old(self).basic@[row as int] >= first_artificial,
                p <= self.non_basic@.len(),
                nonzero@.len() == self.non_basic@.len(),
                forall|q: int| 0 <= q < p ==> !self.may_replace(nonzero@, first_artificial, q),
            decreases self.non_basic@.len() - p,
        {
            if self.non_basic[p] < first_artificial && nonzero[p] {
                let column = self.non_basic[p];
                let ghost before = *self;
                self.pivot(p, row);
                assert forall|q: int| before.first_replacement(nonzero@, first_artificial, q) implies q == p by {
                    if q < p {
                    } else if q > p {
                        assert(before.may_replace(nonzero@, first_artificial, p as int));
                    }
                }
                assert(before.first_replacement(nonzero@, first_artificial, p as int));
                assert(!(forall|q: int| !before.may_replace(nonzero@, first_artificial, q)));
                return Ok(DriveOut::Replaced { position: p, column });
            }
            p = p + 1;
        }
        if at_zero {
            Ok(DriveOut::KeptDegenerate)
        } else {
            Err(SolveError::InvalidModel(String::from_str("artificial variable left in basis with non-zero value")))
        }
    }
}

/// Swapping one basic entry with one non-basic entry keeps the two sequences a
/// partition of the same columns.
proof fn lemma_swap_keeps_partition(b: Seq<usize>, nb: Seq<usize>, i: int, p: int)
    requires
        0 <= i < b.len(),
        0 <= p < nb.len(),
        b.no_duplicates(),
        nb.no_duplicates(),
        forall|x: int, y: int| 0 <= x < b.len() && 0 <= y < nb.len() ==> b[x] != nb[y],
    ensures
        b.update(i, nb[p]).no_duplicates(),
        nb.update(p, b[i]).no_duplicates(),
        forall|x: int, y: int|
            0 <= x < b.len() && 0 <= y < nb.len() ==> b.update(i, nb[p])[x] != nb.update(p, b[i])[y],
        forall|c: usize| b.contains(c) || nb.contains(c) ==> #[trigger] b.update(i, nb[p]).contains(c) || nb.update(p, b[i]).contains(c),
        forall|c: usize| b.update(i, nb[p]).contains(c) || nb.update(p, b[i]).contains(c) ==> #[trigger] b.contains(c) || nb.contains(c),
{
    let b2 = b.update(i, nb[p]);
    let nb2 = nb.update(p, b[i]);
    assert forall|c: usize| b.contains(c) || nb.contains(c) implies #[trigger] b2.contains(c) || nb2.contains(c) by {
        if b.contains(c) {
            let x = choose|x: int| 0 <= x < b.len() && b[x] == c;
            if x == i {
                assert(nb2[p] == c);
            } else {
                assert(b2[x] == c);
            }
        } else {
            let y = choose|y: int| 0 <= y < nb.len() && nb[y] == c;
            if y == p {
                assert(b2[i] == c);
            } else {
                assert(nb2[y] == c);
            }
        }
    }
    assert forall|c: usize| b2.contains(c) || nb2.contains(c) implies #[trigger] b.contains(c) || nb.contains(c) by {
        if b2.contains(c) {
            let x = choose|x: int| 0 <= x < b2.len() && b2[x] == c;
            if x == i {
                assert(nb[p] == c);
            } else {
                assert(b[x] == c);
            }
        } else {
            let y = choose|y: int| 0 <= y < nb2.len() && nb2[y] == c;
            if y == p {
                assert(b[i] == c);
            } else {
                assert(nb[y] == c);
            }
        }
    }
}

/// Two duplicate-free, disjoint sequences of values below `n` that together
/// hold every value below `n` have lengths that add up to `n`.
pub proof fn lemma_partition_size(a: Seq<usize>, b: Seq<usize>, n: nat)
    requires
        n <= usize::MAX + 1,
        a.no_duplicates(),
        b.no_duplicates(),
        forall|i: int| 0 <= i < a.len() ==> (a[i] as nat) < n,
        forall|p: int| 0 <= p < b.len() ==> (b[p] as nat) < n,
        forall|i: int, p: int| 0 <= i < a.len() && 0 <= p < b.len() ==> a[i] != b[p],
        forall|c: usize| (c as nat) < n ==> #[trigger] a.contains(c) || b.contains(c),
    ensures
        a.len() + b.len() == n,
{
    let ai = a.map_values(|c: usize| c as int);
    let bi = b.map_values(|c: usize| c as int);
    assert(ai.no_duplicates()) by {
        assert forall|x: int, y: int| 0 <= x < ai.len() && 0 <= y < ai.len() && x != y implies ai[x] != ai[y] by {
            assert(a[x] != a[y]);
        }
    }
    assert(bi.no_duplicates()) by {
        assert forall|x: int, y: int| 0 <= x < bi.len() && 0 <= y < bi.len() && x != y implies bi[x] != bi[y] by {
            assert(b[x] != b[y]);
        }
    }
    ai.unique_seq_to_set();
    bi.unique_seq_to_set();
    let sa = ai.to_set();
    let sb = bi.to_set();
    assert(sa.disjoint(sb)) by {
        assert forall|x: int| sa.contains(x) implies !sb.contains(x) by {
            let i = choose|i: int| 0 <= i < ai.len() && ai[i] == x;
            if sb.contains(x) {
                let p = choose|p: int| 0 <= p < bi.len() && bi[p] == x;
                assert(a[i] != b[p]);
            }
        }
    }
    let full = vstd::set_lib::set_int_range(0, n as int);
    assert(sa + sb =~= full) by {
        assert forall|x: int| full.contains(x) implies (sa + sb).contains(x) by {
            let c = x as usize;
            assert((c as nat) < n);
            if a.contains(c) {
                let i = choose|i: int| 0 <= i < a.len() && a[i] == c;
                assert(ai[i] == x);
            } else {
                assert(b.contains(c));
                let p = choose|p: int| 0 <= p < b.len() && b[p] == c;
                assert(bi[p] == x);
            }
        }
        assert forall|x: int| (sa + sb).contains(x) implies full.contains(x) by {
            if sa.contains(x) {
                let i = choose|i: int| 0 <= i < ai.len() && ai[i] == x;
            } else {
                let p = choose|p: int| 0 <= p < bi.len() && bi[p] == x;
            }
        }
    }
    vstd::set_lib::lemma_set_disjoint_lens(sa, sb);
    vstd::set_lib::lemma_int_range(0, n as int);
}

} // verus!
