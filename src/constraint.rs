use vstd::prelude::*;

verus! {

/// The relation of a linear constraint `lhs cmp rhs`.
#[derive(Copy, Clone, Debug, PartialEq, Eq, Structural)]
pub enum Cmp {
    /// `lhs == rhs`
    Eq,
    /// `lhs <= rhs`
    Leq,
    /// `lhs >= rhs`
    Geq,
}

/// An inequality gets one slack (or surplus) column in standard form.
pub open spec fn is_inequality(c: Cmp) -> bool {
    c is Leq || c is Geq
}

/// Coefficient of the slack column in the constraint's row: `+1` for `<=`,
/// `-1` for `>=`, none for an equality.
pub open spec fn slack_sign_of(c: Cmp) -> int {
    match c {
        Cmp::Eq => 0,
        Cmp::Leq => 1,
        Cmp::Geq => -1,
    }
}

impl Cmp {
    /// Whether the constraint needs a slack or surplus column.
    pub fn is_inequality(self) -> (r: bool)
        ensures
            r == is_inequality(self),
    {
        !matches!(self, Cmp::Eq)
    }

    /// Coefficient of the constraint's slack column in its own row.
    pub fn slack_sign(self) -> (r: i8)
        ensures
            r as int == slack_sign_of(self),
    {
        match self {
            Cmp::Eq => 0,
            Cmp::Leq => 1,
            Cmp::Geq => -1,
        }
    }

    /// The relation as written in a constraint: `==`, `<=` or `>=`.
    pub fn symbol(self) -> (r: &'static str)
        ensures
            self is Eq ==> r@ == "=="@,
            self is Leq ==> r@ == "<="@,
            self is Geq ==> r@ == ">="@,
    {
        match self {
            Cmp::Eq => "==",
            Cmp::Leq => "<=",
            Cmp::Geq => ">=",
        }
    }
}

} // verus!
