//! Addresses of scopes and of the variables bound in them.

use vstd::prelude::*;

use crate::common::table::ViewEq;

verus! {

/// A scope, numbered in the order scopes are opened (0 is the global one).
#[derive(Clone, Copy, Debug, Hash, Eq, PartialEq, PartialOrd)]
pub struct ScopeAddress {
    pub n: u64,
}

/// A variable: its name and the scope that binds it.
#[derive(Debug, Hash, Eq, PartialEq, PartialOrd)]
pub struct NamedVarAddress {
    pub name: String,
    pub scope_addr: ScopeAddress,
}

impl View for NamedVarAddress {
    type V = (Seq<char>, u64);

    open spec fn view(&self) -> (Seq<char>, u64) {
        (self.name@, self.scope_addr.n)
    }
}

impl Clone for NamedVarAddress {
    fn clone(&self) -> (r: Self)
        ensures
            r == *self,
    {
        NamedVarAddress { name: self.name.clone(), scope_addr: ScopeAddress { n: self.scope_addr.n } }
    }
}

impl ViewEq for NamedVarAddress {
    fn view_eq(&self, other: &Self) -> (r: bool) {
        self.scope_addr.n == other.scope_addr.n && self.name == other.name
    }
}

} // verus!
