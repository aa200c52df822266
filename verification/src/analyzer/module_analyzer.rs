//! Analysing a module's statements.

use vstd::prelude::*;

use crate::analyzer::analysis::{defined_at, AnalysisState, NonVarToken};
use crate::analyzer::diagnostics::{diags_view, error_diag, DiagV, ErrorV};
use crate::analyzer::expr_analyzer::{
    bound_call, call_step, crawl_function_call, crawl_var_decl, decl_finish, decl_prelude, expr_post, keeps_outer_scopes,
    lemma_grows_refl, lemma_grows_trans, name_lints, var_defined,
};
use crate::analyzer::organic_type::TypeV;
use crate::analyzer::typing::{
    call_fn_free, call_nvts, call_report_of, call_uses, expr_nvts, expr_report, expr_uses, fn_free,
};
use crate::analyzer::scope::resolve;
use crate::common::table::table_get;
use crate::lexer::token::TokenV;
use crate::parser::ast::{Include, Module, Statement, VarDecl};

verus! {

/// The diagnostic a top-level statement is sure to produce first: a call of
/// an unbound name is an error.
pub open spec fn statement_call_error(state: &AnalysisState, statement: Statement) -> Seq<
    crate::analyzer::diagnostics::DiagV,
> {
    match statement {
        Statement::FunctionCall(fc) => if resolve(state.scopes@, fc.func.name@) is None {
            seq![error_diag(ErrorV::NoSuchFn, fc.func.token@)]
        } else {
            seq![]
        },
        Statement::VariableDecl(_) => seq![],
    }
}

/// Whether `statement` holds no function literal.
pub open spec fn statement_fn_free(statement: Statement) -> bool {
    match statement {
        Statement::FunctionCall(fc) => call_fn_free(*fc),
        Statement::VariableDecl(vd) => fn_free(vd.init),
    }
}

/// What a statement without function literals reports: a call, what
/// [`call_report_of`] says; a declaration, the lints of its name, an error
/// where the name is already bound, then what its initial value reports
/// with the variable being initialised.
pub open spec fn statement_report(state: &AnalysisState, statement: Statement) -> Seq<DiagV> {
    match statement {
        Statement::FunctionCall(fc) => call_report_of(
            state.scopes@,
            state.vars@,
            state.initting_var_opt,
            *fc,
        ).0,
        Statement::VariableDecl(vd) => name_lints(vd.name.name@, vd.name.token@) + (if resolve(
            state.scopes@,
            vd.name.name@,
        ) is Some {
            seq![error_diag(ErrorV::DuplicateVar, vd.name.token@)]
        } else {
            seq![]
        }) + expr_report(state.scopes@, state.vars@, Some(vd.name.name), vd.init).0,
    }
}

/// How a declaration `vd` whose initial value holds no function literal
/// changes the names and their types: where the value has no type, nothing
/// changes; otherwise the innermost scope binds the name, and only it, to
/// the address of the name in that scope, which alone gets a type: the
/// value's.
pub open spec fn declared(before: AnalysisState, after: AnalysisState, vd: VarDecl) -> bool {
    let a = (vd.name.name@, before.last_scope_addr.n);
    match expr_report(before.scopes@, before.vars@, Some(vd.name.name), vd.init).1 {
        None => after.scopes@ == before.scopes@ && after.vars == before.vars,
        Some(t) => {
            &&& table_get(after.scopes@.last().env.bindings@, vd.name.name@) matches Some(b) && b@ == a
            &&& forall|q: Seq<char>|
                q != vd.name.name@ ==> #[trigger] table_get(after.scopes@.last().env.bindings@, q)
                    == table_get(before.scopes@.last().env.bindings@, q)
            &&& table_get(after.vars@, a) matches Some(x) && x@ == t
            &&& forall|q: (Seq<char>, u64)|
                q != a ==> #[trigger] table_get(after.vars@, q) == table_get(before.vars@, q)
        },
    }
}

/// The uses recorded after analysing a statement without function
/// literals in the state `before`: a call adds those of [`call_uses`]; a
/// declaration of a name not yet bound replaces the uses of its address by
/// one at its own token, and its initial value adds its uses.
pub open spec fn statement_uses(before: AnalysisState, statement: Statement) -> Set<((Seq<char>, u64), TokenV)> {
    match statement {
        Statement::FunctionCall(fc) => before.uses().union(
            call_uses(before.scopes@, before.vars@, before.initting_var_opt, *fc),
        ),
        Statement::VariableDecl(vd) => (if resolve(before.scopes@, vd.name.name@) is Some {
            before.uses()
        } else {
            defined_at(before.uses(), (vd.name.name@, before.last_scope_addr.n), vd.name.token@)
        }).union(expr_uses(before.scopes@, before.vars@, Some(vd.name.name), vd.init)),
    }
}

/// The tokens that are not variables which analysing a statement without
/// function literals in the state `before` records: those of the call, or
/// of the declaration's initial value.
pub open spec fn statement_nvts(before: AnalysisState, statement: Statement) -> Seq<NonVarToken> {
    match statement {
        Statement::FunctionCall(fc) => call_nvts(before.scopes@, before.vars@, before.initting_var_opt, *fc),
        Statement::VariableDecl(vd) => expr_nvts(before.scopes@, before.vars@, Some(vd.name.name), vd.init),
    }
}

/// What analysing `statement` makes of the state `before`: the state grows,
/// in the same scopes but for the innermost one's bindings; a call of an
/// unbound name is reported first; a call is analysed as [`call_step`]
/// and, where its name is bound, [`bound_call`] say, and a declaration as [`decl_prelude`], [`expr_post`] (its initial
/// value) and [`decl_finish`] say in turn; and a statement without function
/// literals reports exactly [`statement_report`], records the uses
/// [`statement_uses`] and the tokens [`statement_nvts`] say, opens no
/// scope, and a call binds and defines nothing, while a declaration binds
/// as [`declared`] and defines as [`var_defined`] say.
pub open spec fn statement_step(before: AnalysisState, after: AnalysisState, statement: Statement) -> bool {
    &&& before.grows_into(&after)
    &&& keeps_outer_scopes(&before, &after)
    &&& (diags_view(before.analysis.diagnostics@) + statement_call_error(&before, statement)).is_prefix_of(
        diags_view(after.analysis.diagnostics@),
    )
    &&& statement_fn_free(statement) ==> diags_view(after.analysis.diagnostics@) == diags_view(
        before.analysis.diagnostics@,
    ) + statement_report(&before, statement)
    &&& statement_fn_free(statement) ==> after.uses() == statement_uses(before, statement)
    &&& statement_fn_free(statement) ==> after.analysis.non_var_tokens@ == before.analysis.non_var_tokens@
        + statement_nvts(before, statement)
    &&& statement_fn_free(statement) ==> after.last_scope_addr == before.last_scope_addr
    &&& match statement {
        Statement::FunctionCall(fc) => call_step(before, after, *fc) && (resolve(before.scopes@, fc.func.name@) is Some
            ==> exists|r: Option<TypeV>| #[trigger] bound_call(before, after, *fc, r)),
        Statement::VariableDecl(vd) => exists|mid: AnalysisState, end: AnalysisState, t: Option<TypeV>|
            #[trigger] decl_prelude(before, mid, vd) && #[trigger] expr_post(mid, end, vd.init, t) && decl_finish(
                before,
                end,
                after,
                vd,
                t,
            ),
    }
    &&& statement_fn_free(statement) ==> match statement {
        Statement::FunctionCall(_) => {
            &&& after.scopes@ == before.scopes@
            &&& after.vars == before.vars
            &&& after.analysis.definitions == before.analysis.definitions
            &&& after.analysis.defn_infos == before.analysis.defn_infos
        },
        Statement::VariableDecl(vd) => {
            &&& declared(before, after, vd)
            &&& var_defined(
                before,
                after,
                vd,
                expr_report(before.scopes@, before.vars@, Some(vd.name.name), vd.init).1,
            )
        },
    }
}

/// `trace` is the states that analysing `statements` in order passes
/// through: each statement takes the state before it to the next.
pub open spec fn analysed_in_order(statements: Seq<Statement>, trace: Seq<AnalysisState>) -> bool {
    &&& trace.len() == statements.len() + 1
    &&& forall|i: int|
        #![trigger statements[i]]
        0 <= i < statements.len() ==> statement_step(trace[i], trace[i + 1], statements[i])
}

/// Analyses a module: its includes, then its statements in order, all in
/// the innermost scope.
pub fn run(state: &mut AnalysisState, module: Module)
    requires
        old(state).wf(),
    ensures
        old(state).grows_into(final(state)),
        keeps_outer_scopes(old(state), final(state)),
        exists|trace: Seq<AnalysisState>|
            {
                &&& analysed_in_order(module.statements@, trace)
                &&& trace[0] == *old(state)
                &&& trace.last() == *final(state)
            },
{
    let ghost stmts = module.statements@;
    let Module { includes, statements } = module;
    let ghost s0 = *state;
    proof {
        lemma_grows_refl(&s0);
    }
    let mut includes = includes;
    while includes.len() > 0
        invariant
            *state == s0,
        decreases includes@.len(),
    {
        let imported = includes.remove(0);
        crawl_include(state, &imported);
    }
    let mut rest = statements;
    let ghost mut trace: Seq<AnalysisState> = seq![s0];
    proof {
        assert(rest@ =~= stmts.skip(0));
        assert(analysed_in_order(stmts.take(0), trace));
    }
    while rest.len() > 0
        invariant
            s0.grows_into(&*state),
            keeps_outer_scopes(&s0, &*state),
            0 < trace.len() <= stmts.len() + 1,
            rest@ == stmts.skip(trace.len() - 1),
            analysed_in_order(stmts.take(trace.len() - 1), trace),
            trace[0] == s0,
            trace.last() == *state,
        decreases rest@.len(),
    {
        let ghost rb = rest@;
        let ghost k = trace.len() - 1;
        let statement = rest.remove(0);
        proof {
            assert(statement == stmts[k]);
            assert(rest@ =~= stmts.skip(k + 1));
        }
        let ghost si = *state;
        crawl_statement(state, statement);
        proof {
            lemma_grows_trans(&s0, &si, &*state);
            let old_trace = trace;
            trace = trace.push(*state);
            let done = stmts.take(k + 1);
            assert forall|i: int| #![trigger done[i]] 0 <= i < done.len() implies statement_step(
                trace[i],
                trace[i + 1],
                done[i],
            ) by {
                assert(done[i] == stmts[i]);
                if i < k {
                    assert(stmts.take(k)[i] == stmts[i]);
                    assert(statement_step(old_trace[i], old_trace[i + 1], stmts.take(k)[i]));
                }
            }
        }
    }
    proof {
        assert(stmts.take(trace.len() - 1) =~= stmts);
    }
}

/// Analyses an import of another file. Other files' names are not brought
/// into scope, so this changes nothing.
pub fn crawl_include(state: &mut AnalysisState, imported: &Include)
    ensures
        *final(state) == *old(state),
{
    let Include { path: _ } = imported;
}

/// Analyses a top-level statement: a call, or a variable declaration in the
/// innermost scope. A call of an unbound name is reported as an error.
pub fn crawl_statement(state: &mut AnalysisState, statement: Statement)
    requires
        old(state).wf(),
    ensures
        old(state).grows_into(final(state)),
        keeps_outer_scopes(old(state), final(state)),
        (diags_view(old(state).analysis.diagnostics@) + statement_call_error(old(state), statement)).is_prefix_of(
            diags_view(final(state).analysis.diagnostics@),
        ),
        statement_step(*old(state), *final(state), statement),
{
    let ghost s0 = *state;
    match statement {
        Statement::FunctionCall(fn_call) => {
            let ghost fc = *fn_call;
            let _ = crawl_function_call(state, *fn_call);
            proof {
                assert(call_step(s0, *state, fc));
                if call_fn_free(fc) {
                    assert(state.vars == s0.vars);
                    assert(diags_view(state.analysis.diagnostics@) == diags_view(s0.analysis.diagnostics@)
                        + statement_report(&s0, statement));
                }
                assert(state.scopes@.drop_last() =~= s0.scopes@.drop_last());
                assert(diags_view(state.analysis.diagnostics@).is_prefix_of(diags_view(state.analysis.diagnostics@)));
            }
        },
        Statement::VariableDecl(var_decl) => {
            let ghost vd = var_decl;
            crawl_var_decl(state, var_decl);
            proof {
                assert(diags_view(s0.analysis.diagnostics@) + seq![] =~= diags_view(s0.analysis.diagnostics@));
                if fn_free(vd.init) {
                    assert(declared(s0, *state, vd));
                    assert(diags_view(state.analysis.diagnostics@) =~= diags_view(s0.analysis.diagnostics@)
                        + statement_report(&s0, statement));
                }
            }
        },
    }
}

} // verus!
