use vstd::prelude::*;
use vstd::string::*;

verus! {

/// Outcome of a solve as reported on a solution.
#[derive(Debug, Clone)]
pub enum SolveStatus {
    /// No solve has been attempted yet.
    NotSolved,
    /// An optimal basis was found.
    Optimal,
    /// No point satisfies all constraints.
    Infeasible,
    /// The objective grows without limit.
    Unbounded,
    /// Any other ending, with a message (for instance the iteration limit).
    Other(String),
}

/// Failures of modelling or solving.
#[derive(Debug, Clone)]
pub enum SolveError {
    /// The model has no objective function.
    NoObjective,
    /// The model is structurally invalid.
    InvalidModel(String),
    /// A linear solve met a singular pivot.
    NumericalFailure(String),
    /// An unexpected internal state of a solver.
    InternalSolverError(String),
    /// A feature that the engine does not implement.
    Unsupported(String),
    /// Anything else, with a message.
    Other(String),
}

/// Mathematical view of a status: the variant, with the message as characters.
pub open spec fn status_eq(a: SolveStatus, b: SolveStatus) -> bool {
    match (a, b) {
        (SolveStatus::NotSolved, SolveStatus::NotSolved) => true,
        (SolveStatus::Optimal, SolveStatus::Optimal) => true,
        (SolveStatus::Infeasible, SolveStatus::Infeasible) => true,
        (SolveStatus::Unbounded, SolveStatus::Unbounded) => true,
        (SolveStatus::Other(x), SolveStatus::Other(y)) => x@ == y@,
        _ => false,
    }
}

/// Whether two errors are the same variant with the same message.
pub open spec fn error_eq(a: SolveError, b: SolveError) -> bool {
    match (a, b) {
        (SolveError::NoObjective, SolveError::NoObjective) => true,
        (SolveError::InvalidModel(x), SolveError::InvalidModel(y)) => x@ == y@,
        (SolveError::NumericalFailure(x), SolveError::NumericalFailure(y)) => x@ == y@,
        (SolveError::InternalSolverError(x), SolveError::InternalSolverError(y)) => x@ == y@,
        (SolveError::Unsupported(x), SolveError::Unsupported(y)) => x@ == y@,
        (SolveError::Other(x), SolveError::Other(y)) => x@ == y@,
        _ => false,
    }
}

/// How a status reads to a person.
pub open spec fn status_text(s: SolveStatus) -> Seq<char> {
    match s {
        SolveStatus::NotSolved => "Not Solved"@,
        SolveStatus::Optimal => "Optimal"@,
        SolveStatus::Infeasible => "Infeasible"@,
        SolveStatus::Unbounded => "Unbounded"@,
        SolveStatus::Other(m) => "Other: "@ + m@,
    }
}

/// How an error reads to a person.
pub open spec fn error_text(e: SolveError) -> Seq<char> {
    match e {
        SolveError::NoObjective => "No objective function defined"@,
        SolveError::InvalidModel(m) => "Invalid model: "@ + m@,
        SolveError::NumericalFailure(m) => "Numerical failure: "@ + m@,
        SolveError::InternalSolverError(m) => "Internal solver error: "@ + m@,
        SolveError::Unsupported(m) => "Unsupported feature: "@ + m@,
        SolveError::Other(m) => m@,
    }
}

/// `prefix` followed by `msg`, as a new string.
fn prefixed(prefix: &str, msg: &String) -> (r: String)
    ensures
        r@ == prefix@ + msg@,
{
    let mut r = String::from_str(prefix);
    r.append(msg.as_str());
    r
}

impl PartialEq for SolveStatus {
    fn eq(&self, other: &SolveStatus) -> (r: bool)
        ensures
            r == status_eq(*self, *other),
    {
        match (self, other) {
            (SolveStatus::NotSolved, SolveStatus::NotSolved) => true,
            (SolveStatus::Optimal, SolveStatus::Optimal) => true,
            (SolveStatus::Infeasible, SolveStatus::Infeasible) => true,
            (SolveStatus::Unbounded, SolveStatus::Unbounded) => true,
            (SolveStatus::Other(x), SolveStatus::Other(y)) => *x == *y,
            _ => false,
        }
    }
}

impl vstd::std_specs::cmp::PartialEqSpecImpl for SolveStatus {
    open spec fn obeys_eq_spec() -> bool {
        true
    }

    open spec fn eq_spec(&self, other: &SolveStatus) -> bool {
        status_eq(*self, *other)
    }
}

impl Eq for SolveStatus {}

impl PartialEq for SolveError {
    fn eq(&self, other: &SolveError) -> (r: bool)
        ensures
            r == error_eq(*self, *other),
    {
        match (self, other) {
            (SolveError::NoObjective, SolveError::NoObjective) => true,
            (SolveError::InvalidModel(x), SolveError::InvalidModel(y)) => *x == *y,
            (SolveError::NumericalFailure(x), SolveError::NumericalFailure(y)) => *x == *y,
            (SolveError::InternalSolverError(x), SolveError::InternalSolverError(y)) => *x == *y,
            (SolveError::Unsupported(x), SolveError::Unsupported(y)) => *x == *y,
            (SolveError::Other(x), SolveError::Other(y)) => *x == *y,
            _ => false,
        }
    }
}

impl vstd::std_specs::cmp::PartialEqSpecImpl for SolveError {
    open spec fn obeys_eq_spec() -> bool {
        true
    }

    open spec fn eq_spec(&self, other: &SolveError) -> bool {
        error_eq(*self, *other)
    }
}

impl Eq for SolveError {}

impl SolveStatus {
    /// The status as text: `Not Solved`, `Optimal`, `Infeasible`, `Unbounded`
    /// or `Other: <message>`.
    pub fn describe(&self) -> (r: String)
        ensures
            r@ == status_text(*self),
    {
        match self {
            SolveStatus::NotSolved => String::from_str("Not Solved"),
            SolveStatus::Optimal => String::from_str("Optimal"),
            SolveStatus::Infeasible => String::from_str("Infeasible"),
            SolveStatus::Unbounded => String::from_str("Unbounded"),
            SolveStatus::Other(m) => prefixed("Other: ", m),
        }
    }
}

impl SolveError {
    /// The error as text, a fixed prefix for each kind followed by its message.
    pub fn describe(&self) -> (r: String)
        ensures
            r@ == error_text(*self),
    {
        match self {
            SolveError::NoObjective => String::from_str("No objective function defined"),
            SolveError::InvalidModel(m) => prefixed("Invalid model: ", m),
            SolveError::NumericalFailure(m) => prefixed("Numerical failure: ", m),
            SolveError::InternalSolverError(m) => prefixed("Internal solver error: ", m),
            SolveError::Unsupported(m) => prefixed("Unsupported feature: ", m),
            SolveError::Other(m) => m.clone(),
        }
    }
}

} // verus!
