use cnvx::objective::Sense;
use cnvx::status::{SolveError, SolveStatus};

#[test]
fn status_text() {
    assert_eq!(SolveStatus::Optimal.describe(), "Optimal");
    assert_eq!(SolveStatus::NotSolved.describe(), "Not Solved");
    assert_eq!(SolveStatus::Infeasible.describe(), "Infeasible");
    assert_eq!(SolveStatus::Unbounded.describe(), "Unbounded");
    assert_eq!(
        SolveStatus::Other("max iterations reached".to_string()).describe(),
        "Other: max iterations reached"
    );
}

#[test]
fn status_equality() {
    assert_eq!(SolveStatus::Optimal, SolveStatus::Optimal);
    assert_ne!(SolveStatus::Optimal, SolveStatus::Infeasible);
    assert_eq!(SolveStatus::Other("a".to_string()), SolveStatus::Other("a".to_string()));
    assert_ne!(SolveStatus::Other("a".to_string()), SolveStatus::Other("b".to_string()));
}

#[test]
fn error_text() {
    assert_eq!(SolveError::NoObjective.describe(), "No objective function defined");
    assert_eq!(SolveError::InvalidModel("x".to_string()).describe(), "Invalid model: x");
    assert_eq!(SolveError::NumericalFailure("y".to_string()).describe(), "Numerical failure: y");
    assert_eq!(SolveError::InternalSolverError("z".to_string()).describe(), "Internal solver error: z");
    assert_eq!(SolveError::Unsupported("bounds".to_string()).describe(), "Unsupported feature: bounds");
    assert_eq!(SolveError::Other("plain".to_string()).describe(), "plain");
}

#[test]
fn error_equality() {
    assert_eq!(SolveError::NoObjective, SolveError::NoObjective);
    assert_ne!(SolveError::NoObjective, SolveError::Other(String::new()));
    assert_ne!(SolveError::InvalidModel("a".to_string()), SolveError::Unsupported("a".to_string()));
}

#[test]
fn sense_words() {
    assert!(Sense::Minimize.negates());
    assert!(!Sense::Maximize.negates());
    assert_eq!(Sense::Minimize.label(), "Minimize");
    assert_eq!(Sense::Maximize.label(), "Maximize");
}
