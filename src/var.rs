use vstd::prelude::*;

verus! {

/// Identifier of a decision variable: its index within the model that made it.
#[derive(Copy, Clone, Debug, PartialEq, Eq, Hash, Structural)]
pub struct VarId(pub usize);

impl VarId {
    /// The index of the variable in its model.
    pub fn index(self) -> (r: usize)
        ensures
            r == self.0,
    {
        self.0
    }
}

} // verus!
