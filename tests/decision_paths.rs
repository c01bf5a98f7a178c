//! The decisions that the engine takes on small models, replayed through the
//! library with the reals of each step written as keys (here: the reals
//! themselves scaled to integers, which keeps their order).
use cnvx::basis::Basis;
use cnvx::constraint::Cmp;
use cnvx::layout::column_layout;
use cnvx::matrix::DenseMatrix;
use cnvx::pricing::choose_leaving;

#[test]
fn bounded_variable_reaches_optimum_at_ten() {
    // maximise x s.t. x <= 10, x >= 0
    let layout = column_layout(1, &vec![Cmp::Leq, Cmp::Geq]);
    assert_eq!(layout.n_total, 3);
    // A = [[1, 1, 0], [1, 0, -1]]: only the slack column is a unit column.
    let mut a = DenseMatrix::new(2, 3, 0.0f64);
    a.set(0, 0, 1.0);
    a.set(1, 0, 1.0);
    a.set(0, 1, Cmp::Leq.slack_sign() as f64);
    a.set(1, 2, Cmp::Geq.slack_sign() as f64);
    assert_eq!(a.data, vec![1.0, 1.0, 0.0, 1.0, 0.0, -1.0]);
    let mut basis = Basis::init_basis(&vec![None, Some(0), None], 2).unwrap();
    assert_eq!(basis.basic, vec![0, 1]);
    let mut bmat = a.select_columns(&basis.basic);
    assert_eq!(bmat.data, vec![1.0, 1.0, 1.0, 0.0]);
    // x_B = [0, 10]; the surplus column has reduced cost 1 > tol.
    let enter = basis.choose_entering(&vec![1_000], 0, 3).unwrap();
    assert_eq!(enter, 0);
    // d = [-1, 1]: only row 1 blocks, at ratio 10.
    let leave = choose_leaving(&vec![-1_000, 1_000], 0, &vec![0, 10_000]).unwrap();
    assert_eq!(leave, 1);
    let entering = basis.non_basic[enter];
    assert_eq!(basis.pivot(enter, leave), 1);
    bmat.set_column(leave, &a.column(entering));
    assert_eq!(basis.basic, vec![0, 2]);
    assert_eq!(bmat.data, vec![1.0, 0.0, 1.0, -1.0]);
    // The slack now has reduced cost -1: optimal.
    assert_eq!(basis.choose_entering(&vec![-1_000], 0, 3), None);
    let values = basis.basic_values(&vec![10.0, 10.0], 1, 0.0);
    assert_eq!(values, vec![10.0]);
}

#[test]
fn conflicting_equalities_need_phase_one() {
    // x = 1, x = 2: one column for two rows, no basis without artificials.
    let layout = column_layout(1, &vec![Cmp::Eq, Cmp::Eq]);
    assert_eq!(layout.n_total, 1);
    assert!(Basis::init_basis(&vec![None], 2).is_none());
    let mut basis = Basis::artificial_start(1, 2);
    assert_eq!(basis.basic, vec![1, 2]);
    // Phase-one reduced cost of x is 2; d = [1, 1], ratios 1 and 2.
    let enter = basis.choose_entering(&vec![2_000], 0, 3).unwrap();
    let leave = choose_leaving(&vec![1_000, 1_000], 0, &vec![1_000, 2_000]).unwrap();
    assert_eq!(leave, 0);
    basis.pivot(enter, leave);
    assert_eq!(basis.basic, vec![0, 2]);
    // Artificial column 1 re-entering would cost -2: phase one is optimal
    // with the second artificial at value 1, so the model is infeasible.
    assert_eq!(basis.choose_entering(&vec![-2_000], 0, 3), None);
    let costs = basis.basic_costs(&vec![0, -1, -1]);
    let sum_art: i64 = -costs.iter().zip([1, 1]).map(|(c, x)| c * x).sum::<i64>();
    assert_eq!(sum_art, 1);
}

#[test]
fn unbounded_direction_has_no_blocking_row() {
    // maximise x s.t. x >= 0: the surplus column enters with d = [-1].
    let basis = Basis::init_basis(&vec![Some(0), None], 1).unwrap();
    assert_eq!(basis.basic, vec![0]);
    assert_eq!(basis.choose_entering(&vec![1_000], 0, 2), Some(0));
    assert_eq!(choose_leaving(&vec![-1_000], 0, &vec![0]), None);
}

#[test]
fn two_equalities_start_feasible() {
    // maximise 3x + 2y s.t. x + y = 4, 2x + 3y = 9: the leading split is the
    // whole matrix and no column is left to price.
    let basis = Basis::init_basis(&vec![None, None], 2).unwrap();
    assert_eq!(basis.basic, vec![0, 1]);
    assert!(basis.non_basic.is_empty());
    assert_eq!(basis.choose_entering(&Vec::new(), 0, 2), None);
    assert_eq!(basis.basic_values(&vec![3.0, 1.0], 2, 0.0), vec![3.0, 1.0]);
}

#[test]
fn minimisation_at_origin_is_optimal_at_once() {
    // minimise 3x + 2y s.t. 2x + y <= 10, x + 3y <= 12, x >= 0, y >= 0
    let layout = column_layout(2, &vec![Cmp::Leq, Cmp::Leq, Cmp::Geq, Cmp::Geq]);
    assert_eq!(layout.n_total, 6);
    assert_eq!(layout.slack, vec![Some(2), Some(3), Some(4), Some(5)]);
    // Only the two slack columns are unit columns: the leading split it is.
    let unit_rows = vec![None, None, Some(0), Some(1), None, None];
    let basis = Basis::init_basis(&unit_rows, 4).unwrap();
    assert_eq!(basis.basic, vec![0, 1, 2, 3]);
    assert_eq!(basis.non_basic, vec![4, 5]);
    // x_B = [0, 0, 10, 12]; the surplus columns have reduced costs -3 and -2.
    assert_eq!(basis.choose_entering(&vec![-3_000, -2_000], 0, 6), None);
    assert_eq!(basis.basic_values(&vec![0.0, 0.0, 10.0, 12.0], 2, 0.0), vec![0.0, 0.0]);
}
