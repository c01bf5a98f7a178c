//! A dense row-major matrix over any copyable entry type.
use vstd::prelude::*;

verus! {

/// Why a square linear solve `A x = rhs` cannot be carried out.
#[derive(Copy, Clone, Debug, PartialEq, Eq, Structural)]
pub enum LinearSolveError {
    /// The matrix is not square, or `rhs` does not have one entry per row.
    DimensionMismatch,
    /// A pivot column had no entry of usable magnitude.
    Singular,
}

impl LinearSolveError {
    /// The failure as text.
    pub fn describe(self) -> (r: &'static str)
        ensures
            self is DimensionMismatch ==> r@ == "rhs length mismatch"@,
            self is Singular ==> r@ == "singular matrix"@,
    {
        match self {
            LinearSolveError::DimensionMismatch => "rhs length mismatch",
            LinearSolveError::Singular => "singular matrix",
        }
    }
}

/// Entry `(r, c)` of a row-major `rows x cols` matrix sits at `r * cols + c`,
/// inside the storage.
pub proof fn lemma_index_in_range(rows: int, cols: int, r: int, c: int)
    requires
        0 <= r < rows,
        0 <= c < cols,
    ensures
        0 <= r * cols + c < rows * cols,
        r * cols + c + 1 <= rows * cols,
{
    assert(r * cols + c < rows * cols) by (nonlinear_arith)
        requires
            0 <= r < rows,
            0 <= c < cols,
    ;
    assert(0 <= r * cols) by (nonlinear_arith)
        requires
            0 <= r,
            0 <= c < cols,
    ;
}

/// Distinct positions of a row-major matrix have distinct storage indices.
pub proof fn lemma_index_injective(cols: int, r1: int, c1: int, r2: int, c2: int)
    requires
        0 <= r1,
        0 <= r2,
        0 <= c1 < cols,
        0 <= c2 < cols,
        r1 * cols + c1 == r2 * cols + c2,
    ensures
        r1 == r2,
        c1 == c2,
{
    if r1 < r2 {
        assert(r1 * cols + c1 < r2 * cols + c2) by (nonlinear_arith)
            requires
                0 <= r1 < r2,
                0 <= c1 < cols,
                0 <= c2,
        ;
    } else if r2 < r1 {
        assert(r2 * cols + c2 < r1 * cols + c1) by (nonlinear_arith)
            requires
                0 <= r2 < r1,
                0 <= c2 < cols,
                0 <= c1,
        ;
    }
}

/// A `rows x cols` matrix stored row by row in `data`.
#[derive(Clone, Debug)]
pub struct DenseMatrix<T> {
    pub rows: usize,
    pub cols: usize,
    pub data: Vec<T>,
}

impl<T: Copy> DenseMatrix<T> {
    /// The storage holds exactly `rows * cols` entries.
    pub open spec fn wf(&self) -> bool {
        self.data@.len() == self.rows * self.cols
    }

    /// Entry `(r, c)`.
    pub open spec fn at(&self, r: int, c: int) -> T {
        self.data@[r * self.cols + c]
    }

    /// A `rows x cols` matrix with every entry `fill`.
    pub fn new(rows: usize, cols: usize, fill: T) -> (m: DenseMatrix<T>)
        requires
            rows * cols <= usize::MAX,
        ensures
            m.wf(),
            m.rows == rows,
            m.cols == cols,
            forall|r: int, c: int| 0 <= r < rows && 0 <= c < cols ==> m.at(r, c) == fill,
    {
        let len: usize = rows * cols;
        let mut data: Vec<T> = Vec::new();
        let mut k: usize = 0;
        while k < len
            invariant
                k <= len,
                data@.len() == k,
                forall|q: int| 0 <= q < k ==> data@[q] == fill,
            decreases len - k,
        {
            data.push(fill);
            k = k + 1;
        }
        let m = DenseMatrix { rows, cols, data };
        assert forall|r: int, c: int| 0 <= r < rows && 0 <= c < cols implies m.at(r, c) == fill by {
            lemma_index_in_range(rows as int, cols as int, r, c);
        }
        m
    }

    /// Number of rows.
    pub fn rows(&self) -> (r: usize)
        ensures
            r == self.rows,
    {
        self.rows
    }

    /// Number of columns.
    pub fn cols(&self) -> (r: usize)
        ensures
            r == self.cols,
    {
        self.cols
    }

    /// Entry `(r, c)`.
    pub fn get(&self, r: usize, c: usize) -> (v: T)
        requires
            self.wf(),
            r < self.rows,
            c < self.cols,
        ensures
            v == self.at(r as int, c as int),
    {
        let len = self.data.len();
        proof {
            lemma_index_in_range(self.rows as int, self.cols as int, r as int, c as int);
        }
        assert(r * self.cols + c < len);
        self.data[r * self.cols + c]
    }

    /// Overwrite entry `(r, c)` with `v`; every other entry stays.
    pub fn set(&mut self, r: usize, c: usize, v: T)
        requires
            old(self).wf(),
            r < old(self).rows,
            c < old(self).cols,
        ensures
            final(self).wf(),
            final(self).rows == old(self).rows,
            final(self).cols == old(self).cols,
            final(self).at(r as int, c as int) == v,
            forall|r2: int, c2: int|
                0 <= r2 < old(self).rows && 0 <= c2 < old(self).cols && (r2 != r || c2 != c)
                    ==> final(self).at(r2, c2) == old(self).at(r2, c2),
    {
        let len = self.data.len();
        proof {
            lemma_index_in_range(self.rows as int, self.cols as int, r as int, c as int);
        }
        assert(r * self.cols + c < len);
        let ghost before = *self;
        let k = r * self.cols + c;
        self.data.set(k, v);
        assert forall|r2: int, c2: int|
            0 <= r2 < before.rows && 0 <= c2 < before.cols && (r2 != r || c2 != c)
                implies self.at(r2, c2) == before.at(r2, c2) by {
            lemma_index_in_range(before.rows as int, before.cols as int, r2, c2);
            if r2 * before.cols + c2 == k {
                lemma_index_injective(before.cols as int, r2, c2, r as int, c as int);
            }
        }
    }

    /// Row `r` as a vector.
    pub fn row(&self, r: usize) -> (v: Vec<T>)
        requires
            self.wf(),
            r < self.rows,
        ensures
            v@.len() == self.cols,
            forall|c: int| 0 <= c < self.cols ==> v@[c] == self.at(r as int, c),
    {
        let mut v: Vec<T> = Vec::new();
        let mut c: usize = 0;
        while c < self.cols
            invariant
                self.wf(),
                r < self.rows,
                c <= self.cols,
                v@.len() == c,
                forall|q: int| 0 <= q < c ==> v@[q] == self.at(r as int, q),
            decreases self.cols - c,
        {
            v.push(self.get(r, c));
            c = c + 1;
        }
        v
    }

    /// Column `c` as a vector.
    pub fn column(&self, c: usize) -> (v: Vec<T>)
        requires
            self.wf(),
            c < self.cols,
        ensures
            v@.len() == self.rows,
            forall|r: int| 0 <= r < self.rows ==> v@[r] == self.at(r, c as int),
    {
        let mut v: Vec<T> = Vec::new();
        let mut r: usize = 0;
        while r < self.rows
            invariant
                self.wf(),
                c < self.cols,
                r <= self.rows,
                v@.len() == r,
                forall|q: int| 0 <= q < r ==> v@[q] == self.at(q, c as int),
            decreases self.rows - r,
        {
            v.push(self.get(r, c));
            r = r + 1;
        }
        v
    }

    /// Overwrite column `c` with `values`; the other columns stay.
    pub fn set_column(&mut self, c: usize, values: &Vec<T>)
        requires
            old(self).wf(),
            c < old(self).cols,
            values@.len() == old(self).rows,
        ensures
            final(self).wf(),
            final(self).rows == old(self).rows,
            final(self).cols == old(self).cols,
            forall|r: int| 0 <= r < old(self).rows ==> final(self).at(r, c as int) == values@[r],
            forall|r: int, c2: int|
                0 <= r < old(self).rows && 0 <= c2 < old(self).cols && c2 != c ==> final(self).at(r, c2)
                    == old(self).at(r, c2),
    {
        let ghost before = *self;
        let mut r: usize = 0;
        while r < self.rows
            invariant
                self.wf(),
                self.rows == before.rows,
                self.cols == before.cols,
                c < self.cols,
                values@.len() == self.rows,
                r <= self.rows,
                forall|q: int| 0 <= q < r ==> self.at(q, c as int) == values@[q],
                forall|q: int, c2: int|
                    0 <= q < self.rows && 0 <= c2 < self.cols && (c2 != c || q >= r) ==> self.at(q, c2)
                        == before.at(q, c2),
            decreases self.rows - r,
        {
            self.set(r, c, values[r]);
            r = r + 1;
        }
    }

    /// The matrix made of the columns `picks[0], picks[1], ...` of `self`, in
    /// that order: the basis matrix `B` when `picks` are the basic columns.
    pub fn select_columns(&self, picks: &Vec<usize>) -> (m: DenseMatrix<T>)
        requires
            self.wf(),
            self.rows * picks@.len() <= usize::MAX,
            forall|j: int| 0 <= j < picks@.len() ==> picks@[j] < self.cols,
        ensures
            m.wf(),
            m.rows == self.rows,
            m.cols == picks@.len(),
            forall|r: int, j: int|
                0 <= r < self.rows && 0 <= j < picks@.len() ==> m.at(r, j) == self.at(r, picks@[j] as int),
    {
        let k = picks.len();
        if self.rows == 0 || k == 0 {
            let m = DenseMatrix { rows: self.rows, cols: k, data: Vec::new() };
            assert(self.rows * k == 0) by (nonlinear_arith)
                requires
                    self.rows == 0 || k == 0,
            ;
            return m;
        }
        let fill = self.get(0, picks[0]);
        let mut m = DenseMatrix::new(self.rows, k, fill);
        let mut r: usize = 0;
        while r < self.rows
            invariant
                self.wf(),
                m.wf(),
                m.rows == self.rows,
                m.cols == k,
                k == picks@.len(),
                forall|j: int| 0 <= j < picks@.len() ==> picks@[j] < self.cols,
                r <= self.rows,
                forall|q: int, j: int| 0 <= q < r && 0 <= j < k ==> m.at(q, j) == self.at(q, picks@[j] as int),
            decreases self.rows - r,
        {
            let mut j: usize = 0;
            while j < k
                invariant
                    self.wf(),
                    m.wf(),
                    m.rows == self.rows,
                    m.cols == k,
                    k == picks@.len(),
                    forall|j: int| 0 <= j < picks@.len() ==> picks@[j] < self.cols,
                    r < self.rows,
                    j <= k,
                    forall|q: int, j2: int|
                        0 <= q < r && 0 <= j2 < k ==> m.at(q, j2) == self.at(q, picks@[j2] as int),
                    forall|j2: int| 0 <= j2 < j ==> m.at(r as int, j2) == self.at(r as int, picks@[j2] as int),
                decreases k - j,
            {
                let v = self.get(r, picks[j]);
                m.set(r, j, v);
                j = j + 1;
            }
            r = r + 1;
        }
        m
    }

    /// The transpose: entry `(c, r)` of the result is entry `(r, c)` of `self`.
    pub fn transpose(&self) -> (m: DenseMatrix<T>)
        requires
            self.wf(),
        ensures
            m.wf(),
            m.rows == self.cols,
            m.cols == self.rows,
            forall|r: int, c: int| 0 <= r < self.rows && 0 <= c < self.cols ==> m.at(c, r) == self.at(r, c),
    {
        if self.rows == 0 || self.cols == 0 {
            let m = DenseMatrix { rows: self.cols, cols: self.rows, data: Vec::new() };
            assert(self.cols * self.rows == 0) by (nonlinear_arith)
                requires
                    self.rows == 0 || self.cols == 0,
            ;
            return m;
        }
        let len = self.data.len();
        assert(self.cols * self.rows == self.rows * self.cols) by (nonlinear_arith);
        assert(self.cols * self.rows <= len);
        let fill = self.get(0, 0);
        let mut m = DenseMatrix::new(self.cols, self.rows, fill);
        let mut r: usize = 0;
        while r < self.rows
            invariant
                self.wf(),
                m.wf(),
                m.rows == self.cols,
                m.cols == self.rows,
                r <= self.rows,
                forall|q: int, c: int| 0 <= q < r && 0 <= c < self.cols ==> m.at(c, q) == self.at(q, c),
            decreases self.rows - r,
        {
            let mut c: usize = 0;
            while c < self.cols
                invariant
                    self.wf(),
                    m.wf(),
                    m.rows == self.cols,
                    m.cols == self.rows,
                    r < self.rows,
                    c <= self.cols,
                    forall|q: int, c2: int| 0 <= q < r && 0 <= c2 < self.cols ==> m.at(c2, q) == self.at(q, c2),
                    forall|c2: int| 0 <= c2 < c ==> m.at(c2, r as int) == self.at(r as int, c2),
                decreases self.cols - c,
            {
                let v = self.get(r, c);
                m.set(c, r, v);
                c = c + 1;
            }
            r = r + 1;
        }
        m
    }

    /// Whether `A x = rhs` is a square system: `A` is `n x n` and `rhs` has
    /// `n` entries.
    pub fn check_system(&self, rhs_len: usize) -> (r: Result<(), LinearSolveError>)
        ensures
            r is Ok <==> (self.rows == self.cols && rhs_len == self.rows),
            r is Err ==> r == Err::<(), LinearSolveError>(LinearSolveError::DimensionMismatch),
    {
        if self.rows != self.cols || rhs_len != self.rows {
            Err(LinearSolveError::DimensionMismatch)
        } else {
            Ok(())
        }
    }
}

} // verus!
