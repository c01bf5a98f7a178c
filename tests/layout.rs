use cnvx::constraint::Cmp;
use cnvx::layout::column_layout;

#[test]
fn layout_of_bounded_single_variable() {
    // x <= 10, x >= 0
    let l = column_layout(1, &vec![Cmp::Leq, Cmp::Geq]);
    assert_eq!(l.n_vars, 1);
    assert_eq!(l.n_total, 3);
    assert_eq!(l.slack, vec![Some(1), Some(2)]);
}

#[test]
fn layout_equalities_get_no_column() {
    // x + 2y - z = 4, 2x - y + 3z <= 10, -x + y + z >= 2
    let l = column_layout(3, &vec![Cmp::Eq, Cmp::Leq, Cmp::Geq]);
    assert_eq!(l.n_total, 5);
    assert_eq!(l.slack, vec![None, Some(3), Some(4)]);
}

#[test]
fn layout_only_equalities() {
    let l = column_layout(2, &vec![Cmp::Eq, Cmp::Eq]);
    assert_eq!(l.n_total, 2);
    assert_eq!(l.slack, vec![None, None]);
}

#[test]
fn layout_empty_model() {
    let l = column_layout(0, &Vec::new());
    assert_eq!(l.n_total, 0);
    assert!(l.slack.is_empty());
}

#[test]
fn cmp_slack_signs_and_symbols() {
    assert_eq!(Cmp::Leq.slack_sign(), 1);
    assert_eq!(Cmp::Geq.slack_sign(), -1);
    assert_eq!(Cmp::Eq.slack_sign(), 0);
    assert!(Cmp::Leq.is_inequality());
    assert!(!Cmp::Eq.is_inequality());
    assert_eq!(Cmp::Eq.symbol(), "==");
    assert_eq!(Cmp::Leq.symbol(), "<=");
    assert_eq!(Cmp::Geq.symbol(), ">=");
}
