//! The results of analysing a module, and the state kept while doing so.

use std::sync::Arc;

use vstd::prelude::*;

use crate::analyzer::builtins::{binds_types, builtin_types, initial_state, BuiltIns};
use crate::analyzer::diagnostics::{diags_view, AnalyzerDiagnostic};
use crate::analyzer::function::Function;
use crate::analyzer::organic_type::{OrganicType, TypeV};
use crate::analyzer::scope::{resolve, scopes_wf, Env, Scope};
use crate::analyzer::value::TermDefn;
use crate::common::address::{NamedVarAddress, ScopeAddress};
use crate::common::table::{key_index, keys_unique, table_get};
use crate::lexer::token::{Token, TokenV};

verus! {

/// How a name should be highlighted.
#[derive(Clone, Copy, Debug, Eq, PartialEq)]
pub enum HighlightingType {
    Function,
    Parameter,
    Variable,
}

/// What is known about a definition: how to highlight it, its type and the
/// token that defines it.
#[derive(Debug)]
pub struct DefnInfo {
    pub hl_type: HighlightingType,
    pub organic_type: OrganicType,
    pub token: Token,
}

/// A token that is not a variable: a named argument (with the function it
/// belongs to), a number or a string.
#[derive(Debug)]
pub enum NonVarToken {
    NamedArg(Token, NamedVarAddress, Arc<Function>),
    Number(Token),
    String(Token, String),
}

/// The token of a [`NonVarToken`].
pub open spec fn non_var_token(t: &NonVarToken) -> Token {
    match t {
        NonVarToken::NamedArg(token, _, _) => *token,
        NonVarToken::Number(token) => *token,
        NonVarToken::String(token, _) => *token,
    }
}

impl NonVarToken {
    /// The line of its token.
    pub fn line(&self) -> (r: u32)
        ensures
            r == non_var_token(self).source_loc.line,
    {
        self.token().source_loc.line
    }

    /// Its token.
    pub fn token(&self) -> (r: &Token)
        ensures
            *r == non_var_token(self),
    {
        match self {
            NonVarToken::NamedArg(token, _, _) => token,
            NonVarToken::Number(token) => token,
            NonVarToken::String(token, _) => token,
        }
    }
}

/// What analysis found: definitions, what is known of them, diagnostics,
/// tokens that are not variables, and the usages of each definition.
#[derive(Debug)]
pub struct Analysis {
    pub definitions: Vec<(NamedVarAddress, TermDefn)>,
    pub defn_infos: Vec<(NamedVarAddress, DefnInfo)>,
    pub diagnostics: Vec<AnalyzerDiagnostic>,
    pub non_var_tokens: Vec<NonVarToken>,
    pub usages: Vec<(NamedVarAddress, Vec<Token>)>,
}

impl Analysis {
    /// An analysis that knows the given definitions, each with no usages
    /// yet, and nothing else.
    pub fn new(definitions: Vec<(NamedVarAddress, TermDefn)>) -> (r: Analysis)
        requires
            keys_unique(definitions@),
        ensures
            r.definitions@ == definitions@,
            r.defn_infos@.len() == 0,
            r.diagnostics@.len() == 0,
            r.non_var_tokens@.len() == 0,
            r.usages@.len() == definitions@.len(),
            forall|i: int|
                0 <= i < definitions@.len() ==> (#[trigger] r.usages@[i]).0@ == definitions@[i].0@
                    && r.usages@[i].1@.len() == 0,
    {
        let mut usages: Vec<(NamedVarAddress, Vec<Token>)> = Vec::new();
        let mut i: usize = 0;
        while i < definitions.len()
            invariant
                i <= definitions@.len(),
                usages@.len() == i,
                forall|k: int|
                    0 <= k < i ==> (#[trigger] usages@[k]).0@ == definitions@[k].0@
                        && usages@[k].1@.len() == 0,
            decreases definitions@.len() - i,
        {
            usages.push((definitions[i].0.clone(), Vec::new()));
            i = i + 1;
        }
        proof {
            assert forall|a: int, b: int| 0 <= a < b < usages@.len() implies usages@[a].0@ != usages@[b].0@ by {
                assert(usages@[a].0@ == definitions@[a].0@);
                assert(usages@[b].0@ == definitions@[b].0@);
            }
        }
        Analysis { definitions, defn_infos: Vec::new(), diagnostics: Vec::new(), non_var_tokens: Vec::new(), usages }
    }
}

/// The state of an analysis in progress.
#[derive(Debug)]
pub struct AnalysisState {
    pub analysis: Analysis,
    pub initting_var_opt: Option<String>,
    pub last_scope_addr: ScopeAddress,
    pub scopes: Vec<Scope>,
    pub vars: Vec<(NamedVarAddress, OrganicType)>,
}

impl Default for AnalysisState {
    /// The state a module's analysis starts from: the built-in names bound
    /// in the global scope 0, defined and typed, and nothing found yet.
    fn default() -> (s: Self)
        ensures
            s.starting(),
            s.wf(),
            s.last_scope_addr.n == 0,
            s.scopes@.len() == 1,
            s.scopes@[0].address.n == 0,
            s.initting_var_opt is None,
            s.analysis.diagnostics@.len() == 0,
            s.analysis.non_var_tokens@.len() == 0,
    {
        let b = initial_state();
        proof {
            assert(binds_types(&b, builtin_types()));
        }
        let BuiltIns { bindings, defs, vars } = b;
        let ghost bv = bindings@;
        let ghost vv = vars@;
        let mut scopes: Vec<Scope> = Vec::new();
        scopes.push(Scope { env: Env { bindings }, address: ScopeAddress { n: 0 } });
        let s = AnalysisState {
            analysis: Analysis::new(defs),
            initting_var_opt: None,
            last_scope_addr: ScopeAddress { n: 0 },
            scopes,
            vars,
        };
        proof {
            assert(s.scopes@[0].env.bindings@ == bv);
            assert(s.uses() =~= Set::<((Seq<char>, u64), TokenV)>::empty()) by {
                assert forall|u: ((Seq<char>, u64), TokenV)| !s.uses().contains(u) by {
                    if let Some(ts) = table_get(s.analysis.usages@, u.0) {
                        crate::common::table::lemma_key_index_bounds(s.analysis.usages@, u.0);
                    }
                }
            }
            assert(keys_unique(s.analysis.usages@)) by {
                assert forall|a: int, b: int| 0 <= a < b < s.analysis.usages@.len() implies s.analysis.usages@[a].0@ != s.analysis.usages@[b].0@ by {
                    assert(s.analysis.usages@[a].0@ == s.analysis.definitions@[a].0@);
                    assert(s.analysis.usages@[b].0@ == s.analysis.definitions@[b].0@);
                }
            }
            assert forall|i: int, name: Seq<char>|
                0 <= i < s.scopes@.len() && (#[trigger] table_get(s.scopes@[i].env.bindings@, name)) is Some
                implies key_index(s.vars@, table_get(s.scopes@[i].env.bindings@, name)->0@) >= 0 by {
                assert(i == 0);
                assert(table_get(bv, name) is Some);
            }
        }
        s
    }
}

/// Whether `new` defines and types every address of a scope numbered below
/// `m` exactly as `old` does, knows the same of it, and keeps every use of
/// it that `old` records.
pub open spec fn kept_below(old: &AnalysisState, new: &AnalysisState, m: int) -> bool {
    &&& forall|q: (Seq<char>, u64)|
        q.1 < m ==> #[trigger] table_get(new.analysis.definitions@, q) == table_get(old.analysis.definitions@, q)
    &&& forall|q: (Seq<char>, u64)| q.1 < m ==> #[trigger] table_get(new.vars@, q) == table_get(old.vars@, q)
    &&& forall|q: (Seq<char>, u64)|
        q.1 < m ==> #[trigger] table_get(new.analysis.defn_infos@, q) == table_get(old.analysis.defn_infos@, q)
    &&& forall|u: ((Seq<char>, u64), TokenV)| u.0.1 < m && #[trigger] old.uses().contains(u) ==> new.uses().contains(u)
}

impl AnalysisState {
    /// The invariant of the state: there is a scope; no table holds a key
    /// twice; and every name a scope binds has a type.
    pub open spec fn wf(&self) -> bool {
        &&& self.scopes@.len() >= 1
        &&& scopes_wf(self.scopes@)
        &&& keys_unique(self.vars@)
        &&& keys_unique(self.analysis.usages@)
        &&& keys_unique(self.analysis.definitions@)
        &&& keys_unique(self.analysis.defn_infos@)
        &&& forall|i: int, name: Seq<char>|
            0 <= i < self.scopes@.len() && (#[trigger] table_get(
                self.scopes@[i].env.bindings@,
                name,
            )) is Some ==> key_index(
                self.vars@,
                table_get(self.scopes@[i].env.bindings@, name)->0@,
            ) >= 0
    }

    /// How `self` may have grown into `new` while analysing: still
    /// well-formed; diagnostics and non-variable tokens only appended; the
    /// variable being initialised unchanged; scope addresses only growing;
    /// and every typed address still typed.
    pub open spec fn grows_into(&self, new: &AnalysisState) -> bool {
        &&& new.wf()
        &&& diags_view(self.analysis.diagnostics@).is_prefix_of(
            diags_view(new.analysis.diagnostics@),
        )
        &&& self.analysis.non_var_tokens@.is_prefix_of(new.analysis.non_var_tokens@)
        &&& new.initting_var_opt == self.initting_var_opt
        &&& new.last_scope_addr.n >= self.last_scope_addr.n
        &&& forall|q: (Seq<char>, u64)| #[trigger]
            key_index(self.vars@, q) >= 0 ==> key_index(new.vars@, q) >= 0
        &&& kept_below(self, new, self.last_scope_addr.n as int)
    }

    /// Whether the global scope binds exactly the built-in names, each to
    /// its address in scope 0, which has the type [`builtin_types`] gives
    /// the name.
    pub open spec fn knows_builtins(&self) -> bool {
        let m = builtin_types();
        &&& forall|name: Seq<char>| #[trigger]
            table_get(self.scopes@[0].env.bindings@, name) is Some <==> m.contains_key(name)
        &&& forall|name: Seq<char>| #[trigger]
            table_get(self.scopes@[0].env.bindings@, name) matches Some(a) ==> a@ == (name, 0u64)
        &&& forall|name: Seq<char>| #[trigger]
            m.contains_key(name) ==> (table_get(self.vars@, (name, 0u64)) matches Some(t) && t@ == m[name])
    }

    /// Whether this is a state an analysis starts from: well-formed, one
    /// global scope with address 0 that knows the built-in names, no
    /// variable being initialised, and nothing found yet: no diagnostics,
    /// tokens that are not variables, uses, or knowledge of definitions.
    pub open spec fn starting(&self) -> bool {
        &&& self.wf()
        &&& self.knows_builtins()
        &&& self.uses() == Set::<((Seq<char>, u64), TokenV)>::empty()
        &&& self.analysis.defn_infos@.len() == 0
        &&& self.last_scope_addr.n == 0
        &&& self.scopes@.len() == 1
        &&& self.scopes@[0].address.n == 0
        &&& self.initting_var_opt is None
        &&& self.analysis.diagnostics@.len() == 0
        &&& self.analysis.non_var_tokens@.len() == 0
    }

    /// The uses recorded so far: each address paired with each token among
    /// its usages.
    pub open spec fn uses(&self) -> Set<((Seq<char>, u64), TokenV)> {
        Set::new(
            |u: ((Seq<char>, u64), TokenV)|
                table_get(self.analysis.usages@, u.0) matches Some(ts) && exists|i: int|
                    0 <= i < ts@.len() && ts@[i]@ == u.1,
        )
    }

    /// The address `name` resolves to.
    pub open spec fn resolves(&self, name: Seq<char>) -> Option<(Seq<char>, u64)> {
        match resolve(self.scopes@, name) {
            Some(a) => Some(a@),
            None => None,
        }
    }
}

/// The uses `u` with those of the address `a` replaced by a single one, at
/// the token `t`: what defining a variable at `a` records.
pub open spec fn defined_at(
    u: Set<((Seq<char>, u64), TokenV)>,
    a: (Seq<char>, u64),
    t: TokenV,
) -> Set<((Seq<char>, u64), TokenV)> {
    u.filter(|x: ((Seq<char>, u64), TokenV)| x.0 != a).insert((a, t))
}

} // verus!
