use cnvx::matrix::{DenseMatrix, LinearSolveError};

fn sample() -> DenseMatrix<i32> {
    // [[1, 2, 3],
    //  [4, 5, 6]]
    let mut m = DenseMatrix::new(2, 3, 0);
    let mut v = 1;
    for r in 0..2 {
        for c in 0..3 {
            m.set(r, c, v);
            v += 1;
        }
    }
    m
}

#[test]
fn new_is_filled() {
    let m = DenseMatrix::new(2, 2, 7u8);
    assert_eq!(m.rows(), 2);
    assert_eq!(m.cols(), 2);
    assert_eq!(m.data, vec![7, 7, 7, 7]);
}

#[test]
fn set_and_get_row_major() {
    let m = sample();
    assert_eq!(m.data, vec![1, 2, 3, 4, 5, 6]);
    assert_eq!(m.get(1, 0), 4);
    assert_eq!(m.row(1), vec![4, 5, 6]);
    assert_eq!(m.column(2), vec![3, 6]);
}

#[test]
fn transpose_swaps_indices() {
    let t = sample().transpose();
    assert_eq!(t.rows(), 3);
    assert_eq!(t.cols(), 2);
    assert_eq!(t.data, vec![1, 4, 2, 5, 3, 6]);
}

#[test]
fn select_columns_builds_basis_matrix() {
    let b = sample().select_columns(&vec![2, 0]);
    assert_eq!(b.rows(), 2);
    assert_eq!(b.cols(), 2);
    assert_eq!(b.data, vec![3, 1, 6, 4]);
}

#[test]
fn set_column_overwrites_one_column() {
    let mut m = sample();
    m.set_column(1, &vec![0, 9]);
    assert_eq!(m.data, vec![1, 0, 3, 4, 9, 6]);
}

#[test]
fn check_system_dimensions() {
    let sq = DenseMatrix::new(2, 2, 0i64);
    assert_eq!(sq.check_system(2), Ok(()));
    assert_eq!(sq.check_system(3), Err(LinearSolveError::DimensionMismatch));
    assert_eq!(sample().check_system(2), Err(LinearSolveError::DimensionMismatch));
    assert_eq!(LinearSolveError::Singular.describe(), "singular matrix");
    assert_eq!(LinearSolveError::DimensionMismatch.describe(), "rhs length mismatch");
}
