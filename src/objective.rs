use vstd::prelude::*;

verus! {

/// Direction of optimisation.
#[derive(Copy, Clone, Debug, PartialEq, Eq, Structural)]
pub enum Sense {
    Minimize,
    Maximize,
}

impl Sense {
    /// The engine maximises internally: a minimisation negates the objective
    /// coefficients on the way in and the objective value on the way out.
    pub fn negates(self) -> (r: bool)
        ensures
            r == (self is Minimize),
    {
        matches!(self, Sense::Minimize)
    }

    /// The sense as a word: `Minimize` or `Maximize`.
    pub fn label(self) -> (r: &'static str)
        ensures
            self is Minimize ==> r@ == "Minimize"@,
            self is Maximize ==> r@ == "Maximize"@,
    {
        match self {
            Sense::Minimize => "Minimize",
            Sense::Maximize => "Maximize",
        }
    }
}

} // verus!
