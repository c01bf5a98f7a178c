use cnvx::basis::{Basis, DriveOut};
use cnvx::status::SolveError;

#[test]
fn init_basis_takes_first_unit_column_per_row() {
    // Columns 2 and 4 both have their one in row 0; column 3 in row 1.
    let unit_rows = vec![None, None, Some(0), Some(1), Some(0)];
    let b = Basis::init_basis(&unit_rows, 2).unwrap();
    assert_eq!(b.basic, vec![2, 3]);
    assert_eq!(b.non_basic, vec![0, 1, 4]);
}

#[test]
fn init_basis_falls_back_to_leading_split() {
    // x <= 10, x >= 0: columns x, slack, surplus; only the slack is a unit column.
    let unit_rows = vec![None, Some(0), None];
    let b = Basis::init_basis(&unit_rows, 2).unwrap();
    assert_eq!(b.basic, vec![0, 1]);
    assert_eq!(b.non_basic, vec![2]);
}

#[test]
fn init_basis_none_when_fewer_columns_than_rows() {
    // x = 1, x = 2: one column, two rows.
    let unit_rows = vec![None];
    assert!(Basis::init_basis(&unit_rows, 2).is_none());
}

#[test]
fn init_basis_empty_model() {
    let b = Basis::init_basis(&Vec::new(), 0).unwrap();
    assert!(b.basic.is_empty());
    assert!(b.non_basic.is_empty());
}

#[test]
fn artificial_start_layout() {
    let b = Basis::artificial_start(3, 2);
    assert_eq!(b.basic, vec![3, 4]);
    assert_eq!(b.non_basic, vec![0, 1, 2]);
}

#[test]
fn leading_split_layout() {
    let b = Basis::leading_split(2, 5);
    assert_eq!(b.basic, vec![0, 1]);
    assert_eq!(b.non_basic, vec![2, 3, 4]);
}

#[test]
fn pivot_swaps_columns() {
    let mut b = Basis::leading_split(2, 4);
    let leaving = b.pivot(1, 0);
    assert_eq!(leaving, 0);
    assert_eq!(b.basic, vec![3, 1]);
    assert_eq!(b.non_basic, vec![2, 0]);
}

#[test]
fn choose_entering_largest_reduced_cost() {
    let b = Basis::leading_split(1, 5);
    // non_basic = [1, 2, 3, 4]
    assert_eq!(b.choose_entering(&vec![5, 9, 9, 2], 0, 5), Some(1));
}

#[test]
fn choose_entering_ties_go_to_first() {
    let b = Basis::leading_split(0, 3);
    assert_eq!(b.choose_entering(&vec![4, 7, 7], 0, 3), Some(1));
}

#[test]
fn choose_entering_none_when_optimal() {
    let b = Basis::leading_split(1, 4);
    assert_eq!(b.choose_entering(&vec![0, -3, -1], 0, 4), None);
}

#[test]
fn choose_entering_respects_limit() {
    // Column 3 is beyond the limit: it may not enter however large its cost.
    let b = Basis::leading_split(1, 4);
    assert_eq!(b.choose_entering(&vec![1, 2, 100], 0, 3), Some(1));
    assert_eq!(b.choose_entering(&vec![-1, -2, 100], 0, 3), None);
}

#[test]
fn drive_out_not_artificial() {
    let mut b = Basis::leading_split(2, 4);
    let r = b.drive_out_artificial(0, 3, &vec![true, true], false);
    assert_eq!(r, Ok(DriveOut::NotArtificial));
    assert_eq!(b.basic, vec![0, 1]);
}

#[test]
fn drive_out_replaces_with_first_model_nonzero() {
    // Two model columns, two artificial ones (2, 3).
    let mut b = Basis::artificial_start(2, 2);
    let r = b.drive_out_artificial(1, 2, &vec![false, true], true);
    assert_eq!(r, Ok(DriveOut::Replaced { position: 1, column: 1 }));
    assert_eq!(b.basic, vec![2, 1]);
    assert_eq!(b.non_basic, vec![0, 3]);
}

#[test]
fn drive_out_keeps_degenerate_row() {
    let mut b = Basis::artificial_start(1, 2);
    let r = b.drive_out_artificial(0, 1, &vec![false], true);
    assert_eq!(r, Ok(DriveOut::KeptDegenerate));
    assert_eq!(b.basic, vec![1, 2]);
}

#[test]
fn drive_out_fails_on_nonzero_stuck_artificial() {
    let mut b = Basis::artificial_start(1, 2);
    let r = b.drive_out_artificial(0, 1, &vec![false], false);
    assert_eq!(
        r,
        Err(SolveError::InvalidModel("artificial variable left in basis with non-zero value".to_string()))
    );
    assert_eq!(b.basic, vec![1, 2]);
}

#[test]
fn basic_values_scatter() {
    // Five columns, three of them variables.
    let mut b = Basis::leading_split(3, 5);
    b.pivot(1, 0);
    // basic = [4, 1, 2], non_basic = [3, 0]
    let vals = b.basic_values(&vec![7, 8, 9], 3, 0);
    assert_eq!(vals, vec![0, 8, 9]);
}

#[test]
fn basic_costs_gather() {
    let mut b = Basis::leading_split(2, 4);
    b.pivot(0, 1);
    // basic = [0, 2]
    assert_eq!(b.basic_costs(&vec![10, 11, 12, 13]), vec![10, 12]);
}
