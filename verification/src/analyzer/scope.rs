//! Scopes and the names they bind.

use vstd::prelude::*;

use crate::common::address::{NamedVarAddress, ScopeAddress};
use crate::common::table::{keys_unique, table_get};

verus! {

/// The names bound in one scope.
#[derive(Debug)]
pub struct Env {
    pub bindings: Vec<(String, NamedVarAddress)>,
}

/// A scope: its bindings and its address.
#[derive(Debug)]
pub struct Scope {
    pub env: Env,
    pub address: ScopeAddress,
}

/// The address that `name` resolves to in the innermost scope that binds it.
pub open spec fn resolve(scopes: Seq<Scope>, name: Seq<char>) -> Option<NamedVarAddress>
    decreases scopes.len(),
{
    if scopes.len() == 0 {
        None
    } else {
        match table_get(scopes.last().env.bindings@, name) {
            Some(addr) => Some(addr),
            None => resolve(scopes.drop_last(), name),
        }
    }
}

/// Every scope binds each name at most once.
pub open spec fn scopes_wf(scopes: Seq<Scope>) -> bool {
    forall|i: int| 0 <= i < scopes.len() ==> keys_unique(#[trigger] scopes[i].env.bindings@)
}

} // verus!
