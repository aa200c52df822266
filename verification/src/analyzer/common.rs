//! Looking names up, and recording diagnostics.

use vstd::prelude::*;

use crate::analyzer::analysis::AnalysisState;
use crate::analyzer::diagnostics::{
    diags_view, error_diag, lint_diag, warning_diag, AnalyzerDiagnostic, AnalyzerDiagnosticType,
    AnalyzerErrorType, AnalyzerLintType, AnalyzerWarningType,
};
use crate::analyzer::organic_type::{clone_type, OrganicType};
use crate::analyzer::scope::{resolve, Scope};
use crate::common::address::NamedVarAddress;
use crate::common::table::{find_key, key_index, lemma_key_index_bounds, table_get};
use crate::lexer::token::Token;

verus! {

/// Where `resolve` finds a name, some scope binds it to that address.
pub proof fn lemma_resolve_bound(scopes: Seq<Scope>, name: Seq<char>)
    ensures
        resolve(scopes, name) matches Some(a) ==> exists|i: int|
            0 <= i < scopes.len() && #[trigger] table_get(scopes[i].env.bindings@, name) == Some(
                a,
            ),
    decreases scopes.len(),
{
    if scopes.len() > 0 {
        let b = scopes.last().env.bindings@;
        if table_get(b, name) is None {
            lemma_resolve_bound(scopes.drop_last(), name);
            if let Some(a) = resolve(scopes, name) {
                let i = choose|i: int|
                    0 <= i < scopes.drop_last().len() && #[trigger] table_get(
                        scopes.drop_last()[i].env.bindings@,
                        name,
                    ) == Some(a);
                assert(scopes[i] == scopes.drop_last()[i]);
            }
        } else {
            assert(table_get(scopes[scopes.len() - 1].env.bindings@, name) == resolve(scopes, name));
        }
    }
}

/// In a well-formed state, a name that resolves has a type.
pub proof fn lemma_resolved_has_type(state: &AnalysisState, name: Seq<char>)
    requires
        state.wf(),
    ensures
        resolve(state.scopes@, name) matches Some(a) ==> key_index(state.vars@, a@) >= 0,
{
    lemma_resolve_bound(state.scopes@, name);
}

/// The address `name` resolves to: its binding in the innermost scope that
/// binds it.
pub fn resolve_addr(state: &AnalysisState, name: &String) -> (r: Option<NamedVarAddress>)
    ensures
        match r {
            Some(a) => resolve(state.scopes@, name@) == Some(a),
            None => resolve(state.scopes@, name@) is None,
        },
{
    let mut j = state.scopes.len();
    proof {
        assert(state.scopes@.take(j as int) =~= state.scopes@);
    }
    while j > 0
        invariant
            j <= state.scopes@.len(),
            resolve(state.scopes@, name@) == resolve(state.scopes@.take(j as int), name@),
        decreases j,
    {
        let bindings = &state.scopes[j - 1].env.bindings;
        proof {
            assert(state.scopes@.take(j as int).drop_last() =~= state.scopes@.take(j - 1));
            assert(state.scopes@.take(j as int).last() == state.scopes@[j - 1]);
            lemma_key_index_bounds(bindings@, name@);
        }
        match find_key(bindings, name) {
            Some(k) => {
                return Some(bindings[k].1.clone());
            },
            None => {},
        }
        j = j - 1;
    }
    None
}

/// The type of a known address.
pub fn resolve_type(state: &AnalysisState, addr: &NamedVarAddress) -> (r: OrganicType)
    requires
        key_index(state.vars@, addr@) >= 0,
    ensures
        r == table_get(state.vars@, addr@)->0,
{
    proof {
        lemma_key_index_bounds(state.vars@, addr@);
    }
    match find_key(&state.vars, addr) {
        Some(k) => clone_type(&state.vars[k].1),
        None => {
            proof {
                assert(false);
            }
            OrganicType::Unknown
        },
    }
}

/// Records a warning about `token`.
pub fn push_warning(state: &mut AnalysisState, token: Token, typ: AnalyzerWarningType)
    ensures
        diags_view(final(state).analysis.diagnostics@) == diags_view(
            old(state).analysis.diagnostics@,
        ).push(warning_diag(typ, token@)),
        final(state).analysis.definitions == old(state).analysis.definitions,
        final(state).analysis.defn_infos == old(state).analysis.defn_infos,
        final(state).analysis.non_var_tokens == old(state).analysis.non_var_tokens,
        final(state).analysis.usages == old(state).analysis.usages,
        final(state).initting_var_opt == old(state).initting_var_opt,
        final(state).last_scope_addr == old(state).last_scope_addr,
        final(state).scopes == old(state).scopes,
        final(state).vars == old(state).vars,
{
    let ghost before = state.analysis.diagnostics@;
    state.analysis.diagnostics.push(
        AnalyzerDiagnostic { typ: AnalyzerDiagnosticType::AnalyzerWarning(typ), offender: token },
    );
    proof {
        assert(diags_view(state.analysis.diagnostics@) =~= diags_view(before).push(
            warning_diag(typ, token@),
        ));
    }
}

/// Records an error about `token`.
pub fn push_error(state: &mut AnalysisState, token: Token, typ: AnalyzerErrorType)
    ensures
        diags_view(final(state).analysis.diagnostics@) == diags_view(
            old(state).analysis.diagnostics@,
        ).push(error_diag(typ@, token@)),
        final(state).analysis.definitions == old(state).analysis.definitions,
        final(state).analysis.defn_infos == old(state).analysis.defn_infos,
        final(state).analysis.non_var_tokens == old(state).analysis.non_var_tokens,
        final(state).analysis.usages == old(state).analysis.usages,
        final(state).initting_var_opt == old(state).initting_var_opt,
        final(state).last_scope_addr == old(state).last_scope_addr,
        final(state).scopes == old(state).scopes,
        final(state).vars == old(state).vars,
{
    let ghost before = state.analysis.diagnostics@;
    let ghost tv = typ@;
    state.analysis.diagnostics.push(
        AnalyzerDiagnostic { typ: AnalyzerDiagnosticType::AnalyzerError(typ), offender: token },
    );
    proof {
        assert(diags_view(state.analysis.diagnostics@) =~= diags_view(before).push(
            error_diag(tv, token@),
        ));
    }
}

/// Records a lint about `token`.
pub fn push_lint(state: &mut AnalysisState, token: Token, typ: AnalyzerLintType)
    ensures
        diags_view(final(state).analysis.diagnostics@) == diags_view(
            old(state).analysis.diagnostics@,
        ).push(lint_diag(typ, token@)),
        final(state).analysis.definitions == old(state).analysis.definitions,
        final(state).analysis.defn_infos == old(state).analysis.defn_infos,
        final(state).analysis.non_var_tokens == old(state).analysis.non_var_tokens,
        final(state).analysis.usages == old(state).analysis.usages,
        final(state).initting_var_opt == old(state).initting_var_opt,
        final(state).last_scope_addr == old(state).last_scope_addr,
        final(state).scopes == old(state).scopes,
        final(state).vars == old(state).vars,
{
    let ghost before = state.analysis.diagnostics@;
    state.analysis.diagnostics.push(
        AnalyzerDiagnostic { typ: AnalyzerDiagnosticType::AnalyzerLint(typ), offender: token },
    );
    proof {
        assert(diags_view(state.analysis.diagnostics@) =~= diags_view(before).push(
            lint_diag(typ, token@),
        ));
    }
}

} // verus!
