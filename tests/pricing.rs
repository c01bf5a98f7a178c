use cnvx::pricing::{choose_leaving, choose_pivot_row, starts_feasible};

#[test]
fn choose_leaving_smallest_ratio() {
    let r = choose_leaving(&vec![5, 5, 5], 0, &vec![30, 10, 20]);
    assert_eq!(r, Some(1));
}

#[test]
fn choose_leaving_ignores_non_positive_directions() {
    let r = choose_leaving(&vec![-5, 0, 5], 0, &vec![1, 1, 40]);
    assert_eq!(r, Some(2));
}

#[test]
fn choose_leaving_ties_go_to_smallest_row() {
    let r = choose_leaving(&vec![5, 5, 5], 0, &vec![20, 10, 10]);
    assert_eq!(r, Some(1));
}

#[test]
fn choose_leaving_none_when_unbounded() {
    assert_eq!(choose_leaving(&vec![-1, 0, -7], 0, &vec![0, 0, 0]), None);
    assert_eq!(choose_leaving(&Vec::new(), 0, &Vec::new()), None);
}

#[test]
fn choose_pivot_row_largest_magnitude_at_or_below() {
    assert_eq!(choose_pivot_row(&vec![100, 3, 8, 8, 2], 1), 2);
    assert_eq!(choose_pivot_row(&vec![1, 2, 3], 2), 2);
    assert_eq!(choose_pivot_row(&vec![9, 2, 3], 0), 0);
}

#[test]
fn starts_feasible_needs_all_conditions() {
    assert!(starts_feasible(true, &vec![0, 5, -1], -1, true));
    assert!(!starts_feasible(true, &vec![0, 5, -2], -1, true));
    assert!(!starts_feasible(false, &vec![0], -1, true));
    assert!(!starts_feasible(true, &vec![0], -1, false));
    assert!(starts_feasible(true, &Vec::new(), -1, true));
}
