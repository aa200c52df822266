//! Function types.

use vstd::prelude::*;

use crate::analyzer::organic_type::OrganicType;

verus! {

/// The type of a function: its parameters and what it returns.
#[derive(Debug, Eq, Ord, PartialEq, PartialOrd)]
pub struct Function {
    pub params: Vec<ParamInfo>,
    pub return_type: OrganicType,
}

/// A parameter: its name, its type, and whether it has a default value.
#[derive(Debug, Eq, Ord, PartialEq, PartialOrd)]
pub struct ParamInfo(pub String, pub OrganicType, pub bool);

impl Function {
    /// The number of parameters.
    pub fn arity(&self) -> (r: u64)
        ensures
            r == self.params@.len(),
    {
        self.params.len() as u64
    }
}

} // verus!
