//! Column layout of the standard-form tableau.
//!
//! The first `n_vars` columns are the model's variables. Each inequality
//! constraint then gets one slack (`<=`) or surplus (`>=`) column of its own,
//! in constraint order; an equality gets none.
use crate::constraint::{is_inequality, Cmp};
use vstd::prelude::*;

verus! {

/// Number of inequalities among the first `i` relations.
pub open spec fn inequalities_before(cmps: Seq<Cmp>, i: int) -> nat
    decreases i,
{
    if i <= 0 {
        0
    } else {
        inequalities_before(cmps, i - 1) + if is_inequality(cmps[i - 1]) {
            1nat
        } else {
            0nat
        }
    }
}

/// The slack column of constraint `i`, if it has one.
pub open spec fn slack_column_of(n_vars: usize, cmps: Seq<Cmp>, i: int) -> Option<usize> {
    if is_inequality(cmps[i]) {
        Some((n_vars + inequalities_before(cmps, i)) as usize)
    } else {
        None
    }
}

/// Where each column of the tableau comes from.
pub struct ColumnLayout {
    /// Columns `[0, n_vars)` are the model's variables.
    pub n_vars: usize,
    /// Total number of columns: variables, then one per inequality.
    pub n_total: usize,
    /// `slack[i]` is the slack or surplus column of constraint `i`.
    pub slack: Vec<Option<usize>>,
}

/// Counting inequalities never goes down, and each inequality adds one.
pub proof fn lemma_inequalities_grow(cmps: Seq<Cmp>, i: int, k: int)
    requires
        0 <= i <= k <= cmps.len(),
    ensures
        inequalities_before(cmps, i) <= inequalities_before(cmps, k),
        i < k && is_inequality(cmps[i]) ==> inequalities_before(cmps, i) < inequalities_before(cmps, k),
        inequalities_before(cmps, k) <= k,
    decreases k,
{
    if k > 0 {
        lemma_inequalities_grow(cmps, if i < k { i } else { k - 1 }, k - 1);
    }
}

/// The layout of a tableau for `n_vars` variables and constraints with the
/// relations `cmps`: slack columns are numbered from `n_vars` on, one per
/// inequality in constraint order, so that they are distinct and lie in
/// `[n_vars, n_total)`.
pub fn column_layout(n_vars: usize, cmps: &Vec<Cmp>) -> (r: ColumnLayout)
    requires
        n_vars + cmps@.len() <= usize::MAX,
    ensures
        r.n_vars == n_vars,
        r.n_total == n_vars + inequalities_before(cmps@, cmps@.len() as int),
        r.slack@.len() == cmps@.len(),
        forall|i: int| 0 <= i < cmps@.len() ==> #[trigger] r.slack@[i] == slack_column_of(n_vars, cmps@, i),
        forall|i: int|
            0 <= i < cmps@.len() && r.slack@[i] is Some ==> n_vars <= r.slack@[i].unwrap() < r.n_total,
        forall|i: int, k: int|
            0 <= i < k < cmps@.len() && r.slack@[i] is Some && r.slack@[k] is Some ==> r.slack@[i].unwrap()
                < r.slack@[k].unwrap(),
{
    let mut slack: Vec<Option<usize>> = Vec::new();
    let mut next: usize = n_vars;
    let mut i: usize = 0;
    while i < cmps.len()
        invariant
            n_vars + cmps@.len() <= usize::MAX,
            i <= cmps@.len(),
            slack@.len() == i,
            next == n_vars + inequalities_before(cmps@, i as int),
            inequalities_before(cmps@, i as int) <= i,
            forall|k: int| 0 <= k < i ==> #[trigger] slack@[k] == slack_column_of(n_vars, cmps@, k),
        decreases cmps@.len() - i,
    {
        if cmps[i].is_inequality() {
            slack.push(Some(next));
            next = next + 1;
        } else {
            slack.push(None);
        }
        i = i + 1;
    }
    let ghost total = cmps@.len() as int;
    assert forall|k: int| 0 <= k < total && slack@[k] is Some implies n_vars <= slack@[k].unwrap() < next by {
        lemma_inequalities_grow(cmps@, k, total);
    }
    assert forall|a: int, b: int|
        0 <= a < b < total && slack@[a] is Some && slack@[b] is Some implies slack@[a].unwrap()
        < slack@[b].unwrap() by {
        lemma_inequalities_grow(cmps@, a, b);
    }
    ColumnLayout { n_vars, n_total: next, slack }
}

} // verus!
