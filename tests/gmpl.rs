use cnvx::constraint::Cmp;
use cnvx::gmpl::{read_gmpl, Coeff, GmplError, Term};
use cnvx::objective::Sense;

fn terms(ts: &[Term]) -> Vec<(String, usize)> {
    ts.iter()
        .map(|t| {
            let c = match &t.coeff {
                Coeff::One => "1".to_string(),
                Coeff::MinusOne => "-1".to_string(),
                Coeff::Written(w) => String::from_utf8(w.clone()).unwrap(),
            };
            (c, t.var)
        })
        .collect()
}

const MODEL: &str = "# a small model
var x1 >= 0;
var x2 >= 0;
  maximize z: 3*x1 + 2 * x2;
subject to c1: x1 + x2 <= 4;
subject to c2: 2*x1 + 3*x2 >= 9;
Subject To c3: -x2 = 1;
end;
";

#[test]
fn gmpl_declares_variables_in_order() {
    let doc = read_gmpl(MODEL.as_bytes()).unwrap();
    assert_eq!(doc.n_vars, 2);
}

#[test]
fn gmpl_objective_terms() {
    let doc = read_gmpl(MODEL.as_bytes()).unwrap();
    let obj = doc.objective.unwrap();
    assert_eq!(obj.sense, Sense::Maximize);
    assert_eq!(terms(&obj.terms), vec![("3".to_string(), 0), ("2".to_string(), 1)]);
}

#[test]
fn gmpl_constraints_with_relations_and_rhs() {
    let doc = read_gmpl(MODEL.as_bytes()).unwrap();
    assert_eq!(doc.constraints.len(), 3);
    let c: Vec<(Vec<(String, usize)>, Cmp, String)> = doc
        .constraints
        .iter()
        .map(|c| (terms(&c.terms), c.cmp, String::from_utf8(c.rhs.clone()).unwrap()))
        .collect();
    assert_eq!(c[0], (vec![("1".to_string(), 0), ("1".to_string(), 1)], Cmp::Leq, "4".to_string()));
    assert_eq!(c[1], (vec![("2".to_string(), 0), ("3".to_string(), 1)], Cmp::Geq, "9".to_string()));
    assert_eq!(c[2], (vec![("-1".to_string(), 1)], Cmp::Eq, "1".to_string()));
}

#[test]
fn gmpl_minimize() {
    let doc = read_gmpl(b"var x1;\nMINIMIZE cost: x1;\n").unwrap();
    let obj = doc.objective.unwrap();
    assert_eq!(obj.sense, Sense::Minimize);
    assert_eq!(terms(&obj.terms), vec![("1".to_string(), 0)]);
}

#[test]
fn gmpl_unknown_variable() {
    let r = read_gmpl(b"var x1;\nmaximize z: x2;\n");
    assert!(matches!(r, Err(GmplError::UnknownVariable(v)) if v == b"x2".to_vec()));
    let r = read_gmpl(b"var x1;\nmaximize z: x0;\n");
    assert!(matches!(r, Err(GmplError::UnknownVariable(_))));
}

#[test]
fn gmpl_invalid_variable() {
    let r = read_gmpl(b"var x1;\nmaximize z: 2*y;\n");
    assert!(matches!(r, Err(GmplError::InvalidVariable(v)) if v == b"y".to_vec()));
}

#[test]
fn gmpl_invalid_constraints() {
    let r = read_gmpl(b"var x1;\nsubject to c: x1 < 3;\n");
    assert!(matches!(r, Err(GmplError::InvalidConstraint)));
    let r = read_gmpl(b"var x1;\nsubject to c: x1 <= 3 <= 4;\n");
    assert!(matches!(r, Err(GmplError::InvalidConstraintFormat)));
}

#[test]
fn gmpl_empty_text() {
    let doc = read_gmpl(b"").unwrap();
    assert_eq!(doc.n_vars, 0);
    assert!(doc.objective.is_none());
    assert!(doc.constraints.is_empty());
}
