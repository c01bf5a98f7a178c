use cnvx::basis::{Basis, DriveOut};
use cnvx::matrix::DenseMatrix;
use cnvx::tableau::Tableau;

fn a() -> DenseMatrix<i32> {
    // [[1, 2, 3, 1, 0],
    //  [4, 5, 6, 0, 1]]
    let vals = [[1, 2, 3, 1, 0], [4, 5, 6, 0, 1]];
    let mut m = DenseMatrix::new(2, 5, 0);
    for (r, row) in vals.iter().enumerate() {
        for (c, &v) in row.iter().enumerate() {
            m.set(r, c, v);
        }
    }
    m
}

#[test]
fn new_builds_basis_matrix() {
    let t = Tableau::new(a(), Basis::artificial_start(3, 2));
    assert_eq!(t.bmat.data, vec![1, 0, 0, 1]);
}

#[test]
fn pivot_patches_basis_matrix() {
    let mut t = Tableau::new(a(), Basis::artificial_start(3, 2));
    // non_basic = [0, 1, 2]; column 2 enters in row 1.
    let leaving = t.pivot(2, 1);
    assert_eq!(leaving, 4);
    assert_eq!(t.basis.basic, vec![3, 2]);
    assert_eq!(t.basis.non_basic, vec![0, 1, 4]);
    assert_eq!(t.bmat.data, vec![1, 3, 0, 6]);
    assert_eq!(t.bmat.data, t.a.select_columns(&t.basis.basic).data);
}

#[test]
fn drive_out_patches_basis_matrix() {
    let mut t = Tableau::new(a(), Basis::artificial_start(3, 2));
    let r = t.drive_out_artificial(0, 3, &vec![false, true, true], false);
    assert_eq!(r, Ok(DriveOut::Replaced { position: 1, column: 1 }));
    assert_eq!(t.basis.basic, vec![1, 4]);
    assert_eq!(t.bmat.data, vec![2, 0, 5, 1]);
}

#[test]
fn drive_out_leaves_basis_matrix_when_kept() {
    let mut t = Tableau::new(a(), Basis::artificial_start(3, 2));
    let r = t.drive_out_artificial(1, 3, &vec![false, false, false], true);
    assert_eq!(r, Ok(DriveOut::KeptDegenerate));
    assert_eq!(t.bmat.data, vec![1, 0, 0, 1]);
}
