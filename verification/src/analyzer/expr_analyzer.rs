//! Analysing expressions: their types, the names they use, and what is wrong
//! with them.

use std::sync::Arc;

use vstd::prelude::*;

use crate::analyzer::analysis::{defined_at, kept_below, AnalysisState, DefnInfo, HighlightingType, NonVarToken};
use crate::analyzer::builtins::bind_all;
use crate::analyzer::call_check::{args_view, check_call, check_call_spec, lemma_call_report, lemma_push_contains};
use crate::analyzer::typing::{
    arg_names, args_fn_free, args_report, call_fn_free, call_report_of, called_as, expr_report, exprs_fn_free,
    fn_free, formal_names, formals_fn_free, formals_report, items_report, list_report, negation_report, overrides,
    args_uses, call_uses, expr_uses, items_uses, args_nvts, call_nvts, expr_nvts, items_nvts, named_marks,
    arg_marks,
};
use crate::analyzer::common::{lemma_resolved_has_type, push_error, push_warning, resolve_addr, resolve_type};
use crate::analyzer::diagnostics::{diags_view, error_diag, warning_diag, AnalyzerErrorType, AnalyzerWarningType, DiagV, ErrorV};
use crate::analyzer::function::{Function, ParamInfo};

use crate::analyzer::organic_type::{clone_type, lemma_params_view, param_view, params_view, same_type, OrganicType, ParamV, TypeV};
use crate::analyzer::scope::{resolve, scopes_wf, Env, Scope};
use crate::analyzer::value::TermDefn;
use crate::common::address::{NamedVarAddress, ScopeAddress};
use crate::common::table::{ViewEq, key_index, keys_unique, lemma_key_index_bounds, table_get, table_insert, table_remove};
use crate::lexer::token::{Token, TokenV};
use crate::parser::ast::{expr_token, Arg, Expr, Formal, FuncCall, FuncLiteral, Operator, Statement, Symbol, VarDecl};

verus! {

/// The type of an operation: arithmetic gives a number, comparison a
/// boolean.
pub open spec fn op_type(op: Operator) -> TypeV {
    match op {
        Operator::Plus | Operator::Minus | Operator::Times | Operator::Divide => TypeV::Number,
        _ => TypeV::Boolean,
    }
}

/// What an operation with operand types `lt` and `rt` (where known) reports:
/// `==` wants both sides alike (reported at the right operand); every other
/// operator wants numbers on both sides.
pub open spec fn op_diags(
    op: Operator,
    lt: Option<TypeV>,
    rt: Option<TypeV>,
    ltok: TokenV,
    rtok: TokenV,
) -> Seq<DiagV> {
    if op == Operator::Equals {
        if lt is Some && rt is Some && lt->0 != rt->0 {
            seq![error_diag(ErrorV::TypeMismatch { expected: lt->0, got: rt->0 }, rtok)]
        } else {
            seq![]
        }
    } else {
        (if lt is Some && lt->0 != TypeV::Number {
            seq![error_diag(ErrorV::TypeMismatch { expected: TypeV::Number, got: lt->0 }, ltok)]
        } else {
            seq![]
        }) + (if rt is Some && rt->0 != TypeV::Number {
            seq![error_diag(ErrorV::TypeMismatch { expected: TypeV::Number, got: rt->0 }, rtok)]
        } else {
            seq![]
        })
    }
}

/// Every operator but `==` (arithmetic and the comparisons `<`, `<=`, `>`,
/// `>=`) wants numbers on both sides: each operand whose type is known and
/// is not a number is reported as a mismatch against a number at its own
/// token, the left one first, and nothing else is reported.
pub proof fn law_operators_but_equals_want_numbers(
    op: Operator,
    lt: Option<TypeV>,
    rt: Option<TypeV>,
    ltok: TokenV,
    rtok: TokenV,
)
    requires
        op != Operator::Equals,
    ensures
        ({
            let d = op_diags(op, lt, rt, ltok, rtok);
            let bad_l = lt is Some && lt->0 != TypeV::Number;
            let bad_r = rt is Some && rt->0 != TypeV::Number;
            &&& d.len() == (if bad_l { 1int } else { 0int }) + (if bad_r { 1int } else { 0int })
            &&& bad_l ==> d[0] == error_diag(ErrorV::TypeMismatch { expected: TypeV::Number, got: lt->0 }, ltok)
            &&& bad_r ==> d[d.len() - 1] == error_diag(
                ErrorV::TypeMismatch { expected: TypeV::Number, got: rt->0 },
                rtok,
            )
        }),
{
}

/// Arithmetic gives a number; `==` and the comparisons give a boolean.
pub proof fn law_operation_types(op: Operator)
    ensures
        (op == Operator::Plus || op == Operator::Minus || op == Operator::Times || op == Operator::Divide) ==> op_type(op)
            == TypeV::Number,
        (op == Operator::Equals || op == Operator::LessThan || op == Operator::LessOrEquals || op
            == Operator::GreaterThan || op == Operator::GreaterOrEquals) ==> op_type(op) == TypeV::Boolean,
{
}

/// `==` wants both sides alike: where both types are known and differ, one
/// mismatch is reported at the right operand, expecting the left one's
/// type; otherwise nothing is.
pub proof fn law_equals_wants_alike_sides(lt: Option<TypeV>, rt: Option<TypeV>, ltok: TokenV, rtok: TokenV)
    ensures
        ({
            let d = op_diags(Operator::Equals, lt, rt, ltok, rtok);
            &&& d.len() <= 1
            &&& d.len() == 1 <==> (lt is Some && rt is Some && lt->0 != rt->0)
            &&& d.len() == 1 ==> d[0] == error_diag(ErrorV::TypeMismatch { expected: lt->0, got: rt->0 }, rtok)
        }),
{
}

/// The type of a list whose elements have types `ts`: a list of unknowns
/// when empty, a list of the common type when all agree, nothing otherwise.
pub open spec fn list_type(ts: Seq<TypeV>) -> Option<TypeV> {
    if ts.len() == 0 {
        Some(TypeV::List(Box::new(TypeV::Unknown)))
    } else if forall|i: int| 0 <= i < ts.len() ==> #[trigger] ts[i] == ts[0] {
        Some(TypeV::List(Box::new(ts[0])))
    } else {
        None
    }
}

pub open spec fn opt_view(t: Option<OrganicType>) -> Option<TypeV> {
    match t {
        Some(t) => Some(t@),
        None => None,
    }
}

/// `new` and `r` are what analysing an expression whose report is `rep`
/// makes of `old`: the report's diagnostics appended, its type the result,
/// and the types of the addresses, the definitions, what is known of them
/// and the last scope's address unchanged.
pub open spec fn reported(
    old: &AnalysisState,
    new: &AnalysisState,
    r: Option<OrganicType>,
    rep: (Seq<DiagV>, Option<TypeV>),
) -> bool {
    &&& new.vars == old.vars
    &&& new.analysis.definitions == old.analysis.definitions
    &&& new.analysis.defn_infos == old.analysis.defn_infos
    &&& new.last_scope_addr == old.last_scope_addr
    &&& diags_view(new.analysis.diagnostics@) == diags_view(old.analysis.diagnostics@) + rep.0
    &&& opt_view(r) == rep.1
}

/// Growing is transitive.
pub proof fn lemma_grows_trans(a: &AnalysisState, b: &AnalysisState, c: &AnalysisState)
    requires
        a.grows_into(b),
        b.grows_into(c),
    ensures
        a.grows_into(c),
{
    let da = diags_view(a.analysis.diagnostics@);
    let db = diags_view(b.analysis.diagnostics@);
    let dc = diags_view(c.analysis.diagnostics@);
    assert(da.is_prefix_of(dc)) by {
        assert forall|i: int| 0 <= i < da.len() implies da[i] == dc[i] by {
            assert(da[i] == db[i]);
        }
    }
    let na = a.analysis.non_var_tokens@;
    let nb = b.analysis.non_var_tokens@;
    let nc = c.analysis.non_var_tokens@;
    assert(na.is_prefix_of(nc)) by {
        assert forall|i: int| 0 <= i < na.len() implies na[i] == nc[i] by {
            assert(na[i] == nb[i]);
        }
    }
}

/// Growing from a state to itself.
pub proof fn lemma_grows_refl(a: &AnalysisState)
    requires
        a.wf(),
    ensures
        a.grows_into(a),
{
    assert(diags_view(a.analysis.diagnostics@).is_prefix_of(diags_view(a.analysis.diagnostics@)));
    assert(a.analysis.non_var_tokens@.is_prefix_of(a.analysis.non_var_tokens@));
}

/// Whether `new` defines and types every address of a scope numbered below
/// `m`, but `a`, exactly as `old` does, knows the same of it, and keeps
/// every use of it that `old` records.
pub open spec fn kept_below_but(old: &AnalysisState, new: &AnalysisState, m: int, a: (Seq<char>, u64)) -> bool {
    &&& forall|q: (Seq<char>, u64)|
        q.1 < m && q != a ==> #[trigger] table_get(new.analysis.definitions@, q) == table_get(
            old.analysis.definitions@,
            q,
        )
    &&& forall|q: (Seq<char>, u64)| q.1 < m && q != a ==> #[trigger] table_get(new.vars@, q) == table_get(old.vars@, q)
    &&& forall|q: (Seq<char>, u64)|
        q.1 < m && q != a ==> #[trigger] table_get(new.analysis.defn_infos@, q) == table_get(
            old.analysis.defn_infos@,
            q,
        )
    &&& forall|u: ((Seq<char>, u64), TokenV)|
        u.0.1 < m && u.0 != a && #[trigger] old.uses().contains(u) ==> new.uses().contains(u)
}

/// Keeping the definitions below the scope after `a`'s last carries over
/// two steps, the scope numbers only growing.
pub proof fn lemma_kept_trans(a: &AnalysisState, b: &AnalysisState, c: &AnalysisState)
    requires
        a.last_scope_addr.n <= b.last_scope_addr.n,
        kept_below(a, b, next_scope(a.last_scope_addr.n) as int),
        kept_below(b, c, next_scope(b.last_scope_addr.n) as int),
    ensures
        kept_below(a, c, next_scope(a.last_scope_addr.n) as int),
{
    assert forall|q: (Seq<char>, u64)| q.1 < next_scope(a.last_scope_addr.n) implies #[trigger] table_get(
        c.analysis.definitions@,
        q,
    ) == table_get(a.analysis.definitions@, q) by {
        assert(table_get(b.analysis.definitions@, q) == table_get(a.analysis.definitions@, q));
    }
}

/// Keeping what is below `m` but `x` carries over two steps, and follows
/// from keeping all of it.
pub proof fn lemma_but_join(a: &AnalysisState, b: &AnalysisState, c: &AnalysisState, m: int, x: (Seq<char>, u64))
    requires
        kept_below_but(a, b, m, x) || kept_below(a, b, m),
        kept_below_but(b, c, m, x) || kept_below(b, c, m),
    ensures
        kept_below_but(a, c, m, x),
{
    assert forall|u: ((Seq<char>, u64), TokenV)| u.0.1 < m && u.0 != x && #[trigger] a.uses().contains(u) implies c.uses().contains(
        u,
    ) by {
        assert(b.uses().contains(u));
    }
    assert forall|q: (Seq<char>, u64)| q.1 < m && q != x implies #[trigger] table_get(c.analysis.defn_infos@, q)
        == table_get(a.analysis.defn_infos@, q) by {
        assert(table_get(b.analysis.defn_infos@, q) == table_get(a.analysis.defn_infos@, q));
    }
    assert forall|q: (Seq<char>, u64)| q.1 < m && q != x implies #[trigger] table_get(c.vars@, q) == table_get(
        a.vars@,
        q,
    ) by {
        assert(table_get(b.vars@, q) == table_get(a.vars@, q));
    }
    assert forall|q: (Seq<char>, u64)| q.1 < m && q != x implies #[trigger] table_get(c.analysis.definitions@, q)
        == table_get(a.analysis.definitions@, q) by {
        assert(table_get(b.analysis.definitions@, q) == table_get(a.analysis.definitions@, q));
    }
}

/// Keeping what is below `m` carries over two steps.
pub proof fn lemma_kept_join(a: &AnalysisState, b: &AnalysisState, c: &AnalysisState, m: int)
    requires
        kept_below(a, b, m),
        kept_below(b, c, m),
    ensures
        kept_below(a, c, m),
{
    assert forall|u: ((Seq<char>, u64), TokenV)| u.0.1 < m && #[trigger] a.uses().contains(u) implies c.uses().contains(
        u,
    ) by {
        assert(b.uses().contains(u));
    }
    assert forall|q: (Seq<char>, u64)| q.1 < m implies #[trigger] table_get(c.analysis.defn_infos@, q) == table_get(
        a.analysis.defn_infos@,
        q,
    ) by {
        assert(table_get(b.analysis.defn_infos@, q) == table_get(a.analysis.defn_infos@, q));
    }
    assert forall|q: (Seq<char>, u64)| q.1 < m implies #[trigger] table_get(c.vars@, q) == table_get(a.vars@, q) by {
        assert(table_get(b.vars@, q) == table_get(a.vars@, q));
    }
    assert forall|q: (Seq<char>, u64)| q.1 < m implies #[trigger] table_get(c.analysis.definitions@, q) == table_get(
        a.analysis.definitions@,
        q,
    ) by {
        assert(table_get(b.analysis.definitions@, q) == table_get(a.analysis.definitions@, q));
    }
}

/// Keeping the definitions below `m` from `a` to `b` carries over a
/// further growth from `b`, where `b` has reached scope `m`.
pub proof fn lemma_kept_chain(a: &AnalysisState, b: &AnalysisState, c: &AnalysisState, m: int)
    requires
        kept_below(a, b, m),
        b.grows_into(c),
        m <= b.last_scope_addr.n,
    ensures
        kept_below(a, c, m),
{
    assert forall|q: (Seq<char>, u64)| q.1 < m implies #[trigger] table_get(c.analysis.definitions@, q) == table_get(
        a.analysis.definitions@,
        q,
    ) by {
        assert(table_get(b.analysis.definitions@, q) == table_get(a.analysis.definitions@, q));
    }
}

/// Whether `tokens` holds a token equal to `token`.
pub fn contains_token(tokens: &Vec<Token>, token: &Token) -> (r: bool)
    ensures
        r == exists|i: int| 0 <= i < tokens@.len() && tokens@[i]@ == token@,
{
    let mut j: usize = 0;
    while j < tokens.len()
        invariant
            j <= tokens@.len(),
            forall|i: int| 0 <= i < j ==> tokens@[i]@ != token@,
        decreases tokens@.len() - j,
    {
        if tokens[j].view_eq(token) {
            return true;
        }
        j = j + 1;
    }
    false
}

/// Records a use of `addr` at `token` (the set of its usages gains the
/// token).
pub fn record_usage(state: &mut AnalysisState, addr: &NamedVarAddress, token: Token)
    requires
        old(state).wf(),
    ensures
        old(state).grows_into(final(state)),
        final(state).scopes == old(state).scopes,
        final(state).analysis.diagnostics == old(state).analysis.diagnostics,
        final(state).analysis.non_var_tokens == old(state).analysis.non_var_tokens,
        final(state).vars == old(state).vars,
        final(state).initting_var_opt == old(state).initting_var_opt,
        final(state).last_scope_addr == old(state).last_scope_addr,
        final(state).analysis.definitions == old(state).analysis.definitions,
        final(state).analysis.defn_infos == old(state).analysis.defn_infos,
        table_get(final(state).analysis.usages@, addr@) matches Some(ts) && exists|i: int|
            0 <= i < ts@.len() && ts@[i]@ == token@,
        final(state).uses() == old(state).uses().insert((addr@, token@)),
{
    let ghost tv = token@;
    let ghost s0 = *state;
    let existing = table_remove(&mut state.analysis.usages, addr);
    let ghost ex = existing;
    let mut tokens = match existing {
        Some(t) => t,
        None => Vec::new(),
    };
    let ghost bt = tokens@;
    proof {
        assert(ex is Some ==> bt == ex->0@);
        assert(ex is None ==> bt.len() == 0);
    }
    if !contains_token(&tokens, &token) {
        tokens.push(token);
        proof {
            assert(tokens@[tokens@.len() - 1]@ == tv);
        }
    }
    let ghost tokens_view = tokens@;
    assert(exists|i: int| 0 <= i < tokens_view.len() && tokens_view[i]@ == tv);
    table_insert(&mut state.analysis.usages, addr.clone(), tokens);
    proof {
        assert(table_get(state.analysis.usages@, addr@)->0@ == tokens_view);
        assert forall|u: ((Seq<char>, u64), TokenV)| #[trigger] state.uses().contains(u) == s0.uses().insert(
            (addr@, tv),
        ).contains(u) by {
            assert(tokens_view == bt || tokens_view == bt.push(token));
            if u.0 == addr@ {
                if s0.uses().contains(u) {
                    let ts = table_get(s0.analysis.usages@, u.0)->0;
                    let i = choose|i: int| 0 <= i < ts@.len() && ts@[i]@ == u.1;
                    assert(ex == Some(ts));
                    assert(tokens_view[i] == ts@[i]);
                }
                if state.uses().contains(u) && u.1 != tv {
                    let i = choose|i: int| 0 <= i < tokens_view.len() && tokens_view[i]@ == u.1;
                    assert(i < bt.len());
                    assert(bt[i] == tokens_view[i]);
                    assert(ex is Some);
                }
            }
        }
        assert(state.uses() =~= s0.uses().insert((addr@, tv)));
        assert(diags_view(state.analysis.diagnostics@).is_prefix_of(
            diags_view(state.analysis.diagnostics@),
        ));
        assert(state.analysis.non_var_tokens@.is_prefix_of(state.analysis.non_var_tokens@));
    }
}

/// Appends `more` to the diagnostics.
fn append_diags(state: &mut AnalysisState, more: Vec<crate::analyzer::diagnostics::AnalyzerDiagnostic>)
    requires
        old(state).wf(),
    ensures
        old(state).grows_into(final(state)),
        diags_view(final(state).analysis.diagnostics@) == diags_view(
            old(state).analysis.diagnostics@,
        ) + diags_view(more@),
        final(state).scopes == old(state).scopes,
        final(state).vars == old(state).vars,
        final(state).analysis.non_var_tokens == old(state).analysis.non_var_tokens,
        final(state).analysis.usages == old(state).analysis.usages,
        final(state).analysis.definitions == old(state).analysis.definitions,
        final(state).analysis.defn_infos == old(state).analysis.defn_infos,
        final(state).last_scope_addr == old(state).last_scope_addr,
{
    let ghost before = state.analysis.diagnostics@;
    let ghost added = more@;
    let mut more = more;
    state.analysis.diagnostics.append(&mut more);
    proof {
        assert(diags_view(before) + diags_view(added) =~= diags_view(state.analysis.diagnostics@));
        assert(diags_view(before).is_prefix_of(diags_view(state.analysis.diagnostics@)));
        assert(state.analysis.non_var_tokens@.is_prefix_of(state.analysis.non_var_tokens@));
    }
}

/// The name and the token of the name of each checked argument, in order.
pub open spec fn actual_marks(actuals: Seq<(ParamInfo, Token)>) -> Seq<(Seq<char>, Token)> {
    actuals.map_values(|a: (ParamInfo, Token)| (a.0.0@, a.1))
}

/// Checks a call of a function of type `func`, bound at `addr`: records the
/// use of `addr` at `token`, marks the argument names, and reports what
/// [`check_call`] finds.  The result is the call's type.
pub fn crawl_verified_function_call(
    state: &mut AnalysisState,
    token: &Token,
    addr: &NamedVarAddress,
    actuals: Vec<(ParamInfo, Token)>,
    func: &Arc<Function>,
) -> (r: Option<OrganicType>)
    requires
        old(state).wf(),
    ensures
        kept_below(old(state), final(state), next_scope(old(state).last_scope_addr.n) as int),
        old(state).grows_into(final(state)),
        final(state).scopes@ == old(state).scopes@,
        diags_view(final(state).analysis.diagnostics@) == diags_view(
            old(state).analysis.diagnostics@,
        ) + check_call_spec(&**func, actuals@, token@).0,
        opt_view(r) == check_call_spec(&**func, actuals@, token@).1,
        final(state).vars == old(state).vars,
        final(state).analysis.definitions == old(state).analysis.definitions,
        final(state).analysis.defn_infos == old(state).analysis.defn_infos,
        final(state).last_scope_addr == old(state).last_scope_addr,
        final(state).uses() == old(state).uses().insert((addr@, token@)),
        final(state).analysis.non_var_tokens@ == old(state).analysis.non_var_tokens@ + named_marks(
            actual_marks(actuals@),
            *addr,
            *func,
        ),
{
    let ghost s0 = *state;
    let ghost xs = actual_marks(actuals@);
    record_usage(state, addr, token.clone());
    let ghost s1 = *state;
    let mut i: usize = 0;
    proof {
        assert(xs.skip(0) =~= xs);
    }
    while i < actuals.len()
        invariant
            s0.grows_into(&*state),
            xs == actual_marks(actuals@),
            s1.analysis.non_var_tokens@ + named_marks(xs, *addr, *func) == state.analysis.non_var_tokens@
                + named_marks(xs.skip(i as int), *addr, *func),
            s1.analysis.non_var_tokens@.is_prefix_of(state.analysis.non_var_tokens@),
            state.scopes == s1.scopes,
            state.vars == s1.vars,
            state.analysis.diagnostics == s1.analysis.diagnostics,
            state.analysis.usages == s1.analysis.usages,
            state.analysis.definitions == s1.analysis.definitions,
            state.analysis.defn_infos == s1.analysis.defn_infos,
            state.initting_var_opt == s1.initting_var_opt,
            state.last_scope_addr == s1.last_scope_addr,
            i <= actuals.len(),
        decreases actuals.len() - i,
    {
        let mut later = false;
        let mut j = i + 1;
        while j < actuals.len()
            invariant
                i < j <= actuals.len(),
                later == exists|k: int| i < k < j && actuals@[k].0.0@ == actuals@[i as int].0.0@,
            decreases actuals.len() - j,
        {
            if actuals[j].0.0 == actuals[i].0.0 {
                later = true;
            }
            j = j + 1;
        }
        let ghost rest_i = xs.skip(i as int);
        let ghost names_after = xs.skip(i + 1).map_values(|x: (Seq<char>, Token)| x.0);
        proof {
            assert(rest_i.drop_first() =~= xs.skip(i + 1));
            assert(rest_i[0] == xs[i as int]);
            assert(xs[i as int] == (actuals@[i as int].0.0@, actuals@[i as int].1));
            if later {
                let k = choose|k: int| i < k < actuals@.len() && actuals@[k].0.0@ == actuals@[i as int].0.0@;
                assert(names_after[k - i - 1] == xs[k].0);
                assert(names_after.contains(xs[i as int].0));
            }
            if names_after.contains(xs[i as int].0) {
                let m = choose|m: int| 0 <= m < names_after.len() && names_after[m] == xs[i as int].0;
                assert(xs[i + 1 + m].0 == actuals@[i + 1 + m].0.0@);
                assert(later);
            }
        }
        let ghost before = state.analysis.non_var_tokens@;
        if !later {
            state.analysis.non_var_tokens.push(
                NonVarToken::NamedArg(actuals[i].1.clone(), addr.clone(), crate::analyzer::organic_type::share_function(func)),
            );
            proof {
                assert(state.analysis.non_var_tokens@ + named_marks(xs.skip(i + 1), *addr, *func) =~= before
                    + named_marks(rest_i, *addr, *func));
                assert(before.is_prefix_of(state.analysis.non_var_tokens@));
                assert(s0.analysis.non_var_tokens@.is_prefix_of(state.analysis.non_var_tokens@)) by {
                    assert forall|k: int| 0 <= k < s0.analysis.non_var_tokens@.len() implies s0.analysis.non_var_tokens@[k] == state.analysis.non_var_tokens@[k] by {
                        assert(s0.analysis.non_var_tokens@[k] == before[k]);
                    }
                }
                assert(s1.analysis.non_var_tokens@.is_prefix_of(state.analysis.non_var_tokens@)) by {
                    assert forall|k: int| 0 <= k < s1.analysis.non_var_tokens@.len() implies s1.analysis.non_var_tokens@[k] == state.analysis.non_var_tokens@[k] by {
                        assert(s1.analysis.non_var_tokens@[k] == before[k]);
                    }
                }
            }
        }
        proof {
            if later {
                assert(before + named_marks(xs.skip(i + 1), *addr, *func) =~= before + named_marks(
                    rest_i,
                    *addr,
                    *func,
                ));
            }
        }
        i = i + 1;
    }
    proof {
        assert(xs.skip(i as int) =~= Seq::<(Seq<char>, Token)>::empty());
        assert(state.analysis.non_var_tokens@ + Seq::<NonVarToken>::empty() =~= state.analysis.non_var_tokens@);
    }
    let (diags, ret) = check_call(func, &actuals, token);
    let ghost s2 = *state;
    append_diags(state, diags);
    proof {
        lemma_grows_trans(&s0, &s2, &*state);
    }
    ret
}

/// A state whose scopes are those of a well-formed state, whose tables
/// still hold each key once, and whose types cover the old ones, is
/// well-formed.
pub proof fn lemma_wf_frame(old: &AnalysisState, new: &AnalysisState)
    requires
        old.wf(),
        new.scopes@ == old.scopes@,
        keys_unique(new.vars@),
        keys_unique(new.analysis.usages@),
        keys_unique(new.analysis.definitions@),
        keys_unique(new.analysis.defn_infos@),
        forall|q: (Seq<char>, u64)| #[trigger]
            key_index(old.vars@, q) >= 0 ==> key_index(new.vars@, q) >= 0,
    ensures
        new.wf(),
{
    assert forall|i: int, name: Seq<char>|
        0 <= i < new.scopes@.len() && (#[trigger] table_get(
            new.scopes@[i].env.bindings@,
            name,
        )) is Some implies key_index(
        new.vars@,
        table_get(new.scopes@[i].env.bindings@, name)->0@,
    ) >= 0 by {
        assert(table_get(old.scopes@[i].env.bindings@, name) is Some);
    }
}

pub open spec fn types_view(ts: Seq<OrganicType>) -> Seq<TypeV> {
    ts.map_values(|t: OrganicType| t@)
}

/// The type of a list with elements of the types `types`.
pub fn list_type_of(types: &Vec<OrganicType>) -> (r: Option<OrganicType>)
    ensures
        opt_view(r) == list_type(types_view(types@)),
{
    let ghost tv = types_view(types@);
    assert(tv.len() == types@.len());
    if types.len() == 0 {
        let unknown = OrganicType::Unknown;
        assert(unknown@ == TypeV::Unknown);
        let r = OrganicType::List(Box::new(unknown));
        assert(r@ == TypeV::List(Box::new(TypeV::Unknown)));
        return Some(r);
    }
    let mut i: usize = 1;
    while i < types.len()
        invariant
            1 <= i <= types@.len(),
            tv == types_view(types@),
            forall|k: int| 0 <= k < i ==> #[trigger] tv[k] == tv[0],
        decreases types@.len() - i,
    {
        if !same_type(&types[i], &types[0]) {
            proof {
                assert(tv[i as int] != tv[0]);
            }
            return None;
        }
        i = i + 1;
    }
    Some(OrganicType::List(Box::new(clone_type(&types[0]))))
}

/// Reports what is wrong with the operands of `op`.
pub fn check_operands(
    state: &mut AnalysisState,
    op: Operator,
    lt: &Option<OrganicType>,
    rt: &Option<OrganicType>,
    ltok: Token,
    rtok: Token,
)
    requires
        old(state).wf(),
    ensures
        old(state).grows_into(final(state)),
        diags_view(final(state).analysis.diagnostics@) == diags_view(
            old(state).analysis.diagnostics@,
        ) + op_diags(op, opt_view(*lt), opt_view(*rt), ltok@, rtok@),
        final(state).scopes == old(state).scopes,
        final(state).vars == old(state).vars,
        final(state).analysis.usages == old(state).analysis.usages,
        final(state).analysis.non_var_tokens == old(state).analysis.non_var_tokens,
        final(state).analysis.definitions == old(state).analysis.definitions,
        final(state).analysis.defn_infos == old(state).analysis.defn_infos,
        final(state).last_scope_addr == old(state).last_scope_addr,
{
    let ghost d0 = diags_view(state.analysis.diagnostics@);
    let ghost s0 = *state;
    let number = OrganicType::Number;
    let is_equals = match op {
        Operator::Equals => true,
        _ => false,
    };
    if is_equals {
        match (lt, rt) {
            (Some(expected), Some(got)) => {
                if !same_type(expected, got) {
                    push_error(
                        state,
                        rtok,
                        AnalyzerErrorType::TypeMismatch {
                            expected: clone_type(expected),
                            got: clone_type(got),
                        },
                    );
                }
            },
            _ => {},
        }
        proof {
            assert(diags_view(state.analysis.diagnostics@) =~= d0 + op_diags(
                op,
                opt_view(*lt),
                opt_view(*rt),
                ltok@,
                rtok@,
            ));
        }
    } else {
        if let Some(got) = lt {
            if !same_type(got, &number) {
                push_error(
                    state,
                    ltok,
                    AnalyzerErrorType::TypeMismatch { expected: OrganicType::Number, got: clone_type(got) },
                );
            }
        }
        let ghost d1 = diags_view(state.analysis.diagnostics@);
        if let Some(got) = rt {
            if !same_type(got, &number) {
                push_error(
                    state,
                    rtok,
                    AnalyzerErrorType::TypeMismatch { expected: OrganicType::Number, got: clone_type(got) },
                );
            }
        }
        proof {
            assert(diags_view(state.analysis.diagnostics@) =~= d0 + op_diags(
                op,
                opt_view(*lt),
                opt_view(*rt),
                ltok@,
                rtok@,
            ));
        }
    }
    proof {
        assert(d0.is_prefix_of(diags_view(state.analysis.diagnostics@)));
        assert(s0.analysis.non_var_tokens@.is_prefix_of(state.analysis.non_var_tokens@));
    }
}

/// Analyses a use of the variable `name`: it is an error to use the
/// variable being initialised, or a name no scope binds; a use of a bound
/// name is recorded, and its type is the result.
pub fn crawl_lvalue(state: &mut AnalysisState, name: &Symbol, token: Token) -> (r: Option<OrganicType>)
    requires
        old(state).wf(),
    ensures
        kept_below(old(state), final(state), next_scope(old(state).last_scope_addr.n) as int),
        old(state).grows_into(final(state)),
        final(state).scopes == old(state).scopes,
        diags_view(final(state).analysis.diagnostics@) == diags_view(
            old(state).analysis.diagnostics@,
        ) + (if old(state).initting_var_opt matches Some(v) && v@ == name.name@ {
            seq![error_diag(ErrorV::VarCannotInitInTermsOfSelf, token@)]
        } else {
            seq![]
        }) + (if resolve(old(state).scopes@, name.name@) is None {
            seq![error_diag(ErrorV::NoSuchVariable, token@)]
        } else {
            seq![]
        }),
        final(state).vars == old(state).vars,
        final(state).analysis.non_var_tokens == old(state).analysis.non_var_tokens,
        final(state).analysis.definitions == old(state).analysis.definitions,
        final(state).analysis.defn_infos == old(state).analysis.defn_infos,
        final(state).last_scope_addr == old(state).last_scope_addr,
        final(state).uses() == match resolve(old(state).scopes@, name.name@) {
            Some(a) => old(state).uses().insert((a@, token@)),
            None => old(state).uses(),
        },
        r is Some <==> resolve(old(state).scopes@, name.name@) is Some,
        r matches Some(t) ==> t@ == table_get(
            old(state).vars@,
            resolve(old(state).scopes@, name.name@)->0@,
        )->0@,
{
    let ghost s0 = *state;
    let ghost d0 = diags_view(state.analysis.diagnostics@);
    let is_self = match &state.initting_var_opt {
        Some(v) => *v == name.name,
        None => false,
    };
    if is_self {
        push_error(state, token.clone(), AnalyzerErrorType::VarCannotInitInTermsOfSelf);
    }
    let ghost s1 = *state;
    proof {
        lemma_grows_refl(&s1);
    }
    match resolve_addr(state, &name.name) {
        Some(addr) => {
            proof {
                lemma_resolved_has_type(state, name.name@);
            }
            record_usage(state, &addr, token);
            let t = resolve_type(state, &addr);
            proof {
                assert(diags_view(state.analysis.diagnostics@) =~= d0 + (if is_self {
                    seq![error_diag(ErrorV::VarCannotInitInTermsOfSelf, token@)]
                } else {
                    seq![]
                }) + Seq::<DiagV>::empty());
                assert(s0.analysis.non_var_tokens@.is_prefix_of(state.analysis.non_var_tokens@));
                assert(d0.is_prefix_of(diags_view(state.analysis.diagnostics@)));
            }
            Some(t)
        },
        None => {
            push_error(state, token, AnalyzerErrorType::NoSuchVariable);
            proof {
                assert(s0.analysis.non_var_tokens@.is_prefix_of(state.analysis.non_var_tokens@));
                assert(d0.is_prefix_of(diags_view(state.analysis.diagnostics@)));
            }
            None
        },
    }
}

/// Whether `s` has an underscore anywhere in it.
pub open spec fn snake_cased(s: Seq<char>) -> bool {
    exists|i: int| 0 <= i < s.len() && s[i] == '_'
}

/// Whether `s` has an upper-case character.
pub open spec fn camel_cased(s: Seq<char>) -> bool {
    exists|i: int| 0 <= i < s.len() && crate::text::is_uppercase_char(s[i])
}

/// The lint for a declared name: snake case first, then camel case.
pub open spec fn name_lints(name: Seq<char>, token: TokenV) -> Seq<DiagV> {
    if snake_cased(name) {
        seq![crate::analyzer::diagnostics::lint_diag(crate::analyzer::diagnostics::AnalyzerLintType::SnakeCase, token)]
    } else if camel_cased(name) {
        seq![crate::analyzer::diagnostics::lint_diag(crate::analyzer::diagnostics::AnalyzerLintType::CamelCase, token)]
    } else {
        seq![]
    }
}

fn is_snake_cased(name: &String) -> (r: bool)
    ensures
        r == snake_cased(name@),
{
    let cs = crate::text::chars_of(name.as_str());
    let n = cs.len();
    let mut i: usize = 0;
    while i < n
        invariant
            cs@ == name@,
            n == cs@.len(),
            i <= n,
            forall|k: int| 0 <= k < i ==> cs@[k] != '_',
        decreases n - i,
    {
        if cs[i] == '_' {
            return true;
        }
        i = i + 1;
    }
    false
}

fn is_camel_cased(name: &String) -> (r: bool)
    ensures
        r == camel_cased(name@),
{
    let cs = crate::text::chars_of(name.as_str());
    let mut i: usize = 0;
    while i < cs.len()
        invariant
            cs@ == name@,
            i <= cs@.len(),
            forall|k: int| 0 <= k < i ==> !crate::text::is_uppercase_char(cs@[k]),
        decreases cs@.len() - i,
    {
        if crate::text::char_is_uppercase(cs[i]) {
            return true;
        }
        i = i + 1;
    }
    false
}

/// A state that keeps all scopes but the last, and the last one's address.
pub open spec fn keeps_outer_scopes(old: &AnalysisState, new: &AnalysisState) -> bool {
    &&& new.scopes@.len() == old.scopes@.len()
    &&& new.scopes@.drop_last() == old.scopes@.drop_last()
    &&& new.scopes@.last().address == old.scopes@.last().address
}

/// What declaring `vd` records of its definition, where its initial value
/// has the type `t`: a name not yet bound is defined by its token at its
/// address in the innermost scope (otherwise the definitions stay as they
/// are); where the value has a type, what is known of the definition is
/// how to highlight it (as a function or a variable), that type and its
/// token. Nothing else of either table changes.
pub open spec fn var_defined(before: AnalysisState, after: AnalysisState, vd: VarDecl, t: Option<TypeV>) -> bool {
    let a = (vd.name.name@, before.last_scope_addr.n);
    &&& if resolve(before.scopes@, vd.name.name@) is Some {
        after.analysis.definitions == before.analysis.definitions
    } else {
        &&& table_get(after.analysis.definitions@, a) == Some(TermDefn::UserDefined { token: vd.name.token })
        &&& forall|q: (Seq<char>, u64)|
            q != a ==> #[trigger] table_get(after.analysis.definitions@, q) == table_get(
                before.analysis.definitions@,
                q,
            )
    }
    &&& match t {
        None => after.analysis.defn_infos == before.analysis.defn_infos,
        Some(t) => {
            &&& table_get(after.analysis.defn_infos@, a) matches Some(info) && info.organic_type@ == t
                && info.token == vd.name.token && info.hl_type == (if t is Function {
                HighlightingType::Function
            } else {
                HighlightingType::Variable
            })
            &&& forall|q: (Seq<char>, u64)|
                q != a ==> #[trigger] table_get(after.analysis.defn_infos@, q) == table_get(
                    before.analysis.defn_infos@,
                    q,
                )
        },
    }
}

/// What declaring `vd` makes of the state `before`, as far as it is
/// known: the state grows, in the same scopes but for the innermost one's
/// bindings, of which only the declared name's may change; the name's
/// lints, and an error where it is already bound, come first; and where the
/// initial value holds no function literal, the report, the bindings and
/// types, the uses, the tokens and the definitions are exactly those the
/// clauses below give.
pub open spec fn decl_step(before: AnalysisState, after: AnalysisState, vd: VarDecl) -> bool {
    let dup = if resolve(before.scopes@, vd.name.name@) is Some {
        seq![error_diag(ErrorV::DuplicateVar, vd.name.token@)]
    } else {
        seq![]
    };
    let a = (vd.name.name@, before.last_scope_addr.n);
    &&& before.grows_into(&after)
    &&& keeps_outer_scopes(&before, &after)
    &&& (diags_view(before.analysis.diagnostics@) + name_lints(vd.name.name@, vd.name.token@) + dup).is_prefix_of(
        diags_view(after.analysis.diagnostics@),
    )
    &&& forall|q: Seq<char>|
        q != vd.name.name@ ==> #[trigger] table_get(after.scopes@.last().env.bindings@, q) == table_get(
            before.scopes@.last().env.bindings@,
            q,
        )
    &&& fn_free(vd.init) ==> ({
        let rep = expr_report(before.scopes@, before.vars@, Some(vd.name.name), vd.init);
        &&& diags_view(after.analysis.diagnostics@) == diags_view(before.analysis.diagnostics@) + name_lints(
            vd.name.name@,
            vd.name.token@,
        ) + dup + rep.0
        &&& rep.1 is None ==> after.scopes@ == before.scopes@ && after.vars == before.vars
        &&& rep.1 is Some ==> (table_get(after.scopes@.last().env.bindings@, vd.name.name@) matches Some(b)
            && b@ == a)
        &&& rep.1 matches Some(t) ==> (table_get(after.vars@, a) matches Some(x) && x@ == t)
        &&& rep.1 is Some ==> forall|q: (Seq<char>, u64)|
            q != a ==> #[trigger] table_get(after.vars@, q) == table_get(before.vars@, q)
        &&& after.uses() == (if resolve(before.scopes@, vd.name.name@) is Some {
            before.uses()
        } else {
            defined_at(before.uses(), a, vd.name.token@)
        }).union(expr_uses(before.scopes@, before.vars@, Some(vd.name.name), vd.init))
        &&& after.analysis.non_var_tokens@ == before.analysis.non_var_tokens@ + expr_nvts(
            before.scopes@,
            before.vars@,
            Some(vd.name.name),
            vd.init,
        )
        &&& after.last_scope_addr == before.last_scope_addr
        &&& var_defined(before, after, vd, rep.1)
    })
}

/// Analyses a variable declaration in the innermost scope: lints its name,
/// reports a name that is already bound (otherwise defines it), analyses
/// its initial value with the variable marked as being initialised, and, if
/// that has a type, binds the name in the innermost scope with that type.
/// A name already bound leaves the definitions of the current scopes as
/// they were.
#[verifier::rlimit(80)]
pub fn crawl_var_decl(state: &mut AnalysisState, var_decl: VarDecl)
    requires
        old(state).wf(),
    ensures
        resolve(old(state).scopes@, var_decl.name.name@) is Some ==> forall|q: (Seq<char>, u64)|
            q.1 < next_scope(old(state).last_scope_addr.n) ==> #[trigger] table_get(
                final(state).analysis.definitions@,
                q,
            ) == table_get(old(state).analysis.definitions@, q),
        kept_below_but(old(state), final(state), next_scope(old(state).last_scope_addr.n) as int, (
            var_decl.name.name@,
            old(state).last_scope_addr.n,
        )),
        resolve(old(state).scopes@, var_decl.name.name@) is Some && old(state).last_scope_addr.n < u64::MAX
            ==> table_get(final(state).analysis.definitions@, (var_decl.name.name@, old(state).last_scope_addr.n))
            == table_get(old(state).analysis.definitions@, (var_decl.name.name@, old(state).last_scope_addr.n)),
        decl_step(*old(state), *final(state), var_decl),
        exists|mid: AnalysisState, end: AnalysisState, t: Option<TypeV>|
            #[trigger] decl_prelude(*old(state), mid, var_decl) && #[trigger] expr_post(mid, end, var_decl.init, t)
                && decl_finish(*old(state), end, *final(state), var_decl, t),
    decreases var_decl, 0int,
{
    let ghost s0 = *state;
    let ghost d0 = diags_view(state.analysis.diagnostics@);
    let ghost decl = var_decl;
    let VarDecl { name, init } = var_decl;
    let my_addr = NamedVarAddress { name: name.name.clone(), scope_addr: state.last_scope_addr };
    if is_snake_cased(&name.name) {
        crate::analyzer::common::push_lint(state, name.token.clone(), crate::analyzer::diagnostics::AnalyzerLintType::SnakeCase);
    } else if is_camel_cased(&name.name) {
        crate::analyzer::common::push_lint(state, name.token.clone(), crate::analyzer::diagnostics::AnalyzerLintType::CamelCase);
    }
    if resolve_addr(state, &name.name).is_some() {
        push_error(state, name.token.clone(), AnalyzerErrorType::DuplicateVar);
    } else {
        table_insert(&mut state.analysis.definitions, my_addr.clone(), TermDefn::UserDefined { token: name.token.clone() });
        let mut first: Vec<Token> = Vec::new();
        first.push(name.token.clone());
        let ghost before = *state;
        let ghost ft = first@;
        table_insert(&mut state.analysis.usages, my_addr.clone(), first);
        proof {
            let a = my_addr@;
            assert(ft =~= seq![name.token]);
            assert(before.uses() == s0.uses());
            assert forall|u: ((Seq<char>, u64), TokenV)| #[trigger] state.uses().contains(u) == defined_at(
                s0.uses(),
                a,
                name.token@,
            ).contains(u) by {
                if u.0 == a {
                    assert(table_get(state.analysis.usages@, a) is Some && table_get(state.analysis.usages@, a)->0@ == ft);
                    if u.1 == name.token@ {
                        assert(ft[0]@ == u.1);
                    }
                    if state.uses().contains(u) {
                        let i = choose|i: int| 0 <= i < ft.len() && ft[i]@ == u.1;
                        assert(i == 0);
                    }
                } else {
                    assert(table_get(state.analysis.usages@, u.0) == table_get(before.analysis.usages@, u.0));
                    assert(state.uses().contains(u) == before.uses().contains(u));
                    assert(defined_at(s0.uses(), a, name.token@).contains(u) == s0.uses().contains(u));
                }
            }
            assert(state.uses() =~= defined_at(s0.uses(), a, name.token@));
        }
    }
    let ghost d1 = diags_view(state.analysis.diagnostics@);
    proof {
        assert(d1 =~= d0 + name_lints(name.name@, name.token@) + (if resolve(s0.scopes@, name.name@) is Some {
            seq![error_diag(ErrorV::DuplicateVar, name.token@)]
        } else {
            seq![]
        }));
        lemma_wf_frame(&s0, &*state);
    }
    let mut prev = Some(name.name.clone());
    std::mem::swap(&mut prev, &mut state.initting_var_opt);
    let ghost s1 = *state;
    proof {
        lemma_grows_refl(&s1);
    }
    let typ_opt = crawl_expr(state, init);
    let ghost s2 = *state;
    proof {
        if fn_free(decl.init) {
            assert(s1.initting_var_opt == Some(decl.name.name));
            assert(s1.scopes@ == s0.scopes@);
            assert(s1.vars == s0.vars);
        }
    }
    if let Some(typ) = typ_opt {
        let hl_type = match &typ {
            OrganicType::Function(_) => HighlightingType::Function,
            _ => HighlightingType::Variable,
        };
        table_insert(&mut state.vars, my_addr.clone(), clone_type(&typ));
        let mut scope = state.scopes.pop().unwrap();
        table_insert(&mut scope.env.bindings, name.name.clone(), my_addr.clone());
        let ghost inner = scope;
        state.scopes.push(scope);
        table_insert(&mut state.analysis.defn_infos, my_addr, DefnInfo { hl_type, organic_type: typ, token: name.token });
        proof {
            assert(keys_unique(inner.env.bindings@));
            assert(state.scopes@.last() == inner);
            assert(state.scopes@.drop_last() =~= s2.scopes@.drop_last());
            assert forall|i: int, q: Seq<char>|
                0 <= i < state.scopes@.len() && (#[trigger] table_get(
                    state.scopes@[i].env.bindings@,
                    q,
                )) is Some implies key_index(
                state.vars@,
                table_get(state.scopes@[i].env.bindings@, q)->0@,
            ) >= 0 by {
                if i < state.scopes@.len() - 1 {
                    assert(state.scopes@[i] == s2.scopes@[i]);
                    assert(table_get(s2.scopes@[i].env.bindings@, q) is Some);
                } else if q != name.name@ {
                    assert(table_get(s2.scopes@[i].env.bindings@, q) is Some);
                } else {
                    crate::common::table::lemma_key_index_bounds(state.vars@, my_addr@);
                }
            }
            assert(scopes_wf(state.scopes@)) by {
                assert forall|i: int| 0 <= i < state.scopes@.len() implies keys_unique(#[trigger] state.scopes@[i].env.bindings@) by {
                    if i < state.scopes@.len() - 1 {
                        assert(state.scopes@[i] == s2.scopes@[i]);
                        assert(scopes_wf(s2.scopes@));
                        assert(keys_unique(s2.scopes@[i].env.bindings@));
                    } else {
                        assert(state.scopes@[i] == inner);
                    }
                }
            }
        }
    }
    state.initting_var_opt = prev;
    proof {
        assert(s0.analysis.non_var_tokens@.is_prefix_of(state.analysis.non_var_tokens@)) by {
            assert forall|k: int| 0 <= k < s0.analysis.non_var_tokens@.len() implies s0.analysis.non_var_tokens@[k] == state.analysis.non_var_tokens@[k] by {
                assert(s0.analysis.non_var_tokens@[k] == s1.analysis.non_var_tokens@[k]);
            }
        }
        let dn = diags_view(state.analysis.diagnostics@);
        assert(d1.is_prefix_of(dn)) by {
            assert forall|k: int| 0 <= k < d1.len() implies d1[k] == dn[k] by {
                assert(d1[k] == diags_view(s1.analysis.diagnostics@)[k]);
            }
        }
        assert(d0.is_prefix_of(dn)) by {
            assert forall|k: int| 0 <= k < d0.len() implies d0[k] == dn[k] by {
                assert(d0[k] == d1[k]);
            }
        }
        assert forall|q: (Seq<char>, u64)| #[trigger] key_index(s0.vars@, q) >= 0 implies key_index(state.vars@, q) >= 0 by {
            assert(key_index(s1.vars@, q) >= 0);
            assert(key_index(s2.vars@, q) >= 0);
        }
        let a = (decl.name.name@, s0.last_scope_addr.n);
        let n0 = s0.last_scope_addr.n as int;
        assert(kept_below(&s0, &s1, n0)) by {
            assert forall|u: ((Seq<char>, u64), TokenV)| u.0.1 < n0 && #[trigger] s0.uses().contains(u) implies s1.uses().contains(
                u,
            ) by {
                if resolve(s0.scopes@, decl.name.name@) is None {
                    assert(u.0 != a);
                    assert(defined_at(s0.uses(), a, decl.name.token@).contains(u));
                }
            }
        }
        assert(kept_below(&s1, &s2, n0));
        assert(kept_below(&s2, &*state, n0)) by {
            assert(state.uses() =~= s2.uses());
            assert forall|q: (Seq<char>, u64)| q.1 < n0 implies #[trigger] table_get(state.analysis.defn_infos@, q)
                == table_get(s2.analysis.defn_infos@, q) by {
                assert(q != a);
            }
            assert forall|q: (Seq<char>, u64)| q.1 < n0 implies #[trigger] table_get(state.vars@, q) == table_get(
                s2.vars@,
                q,
            ) by {
                assert(q != a);
            }
        }
        lemma_kept_join(&s0, &s1, &s2, n0);
        lemma_kept_join(&s0, &s2, &*state, n0);
        let nx = next_scope(s0.last_scope_addr.n) as int;
        assert(kept_below_but(&s0, &s1, nx, a)) by {
            assert forall|u: ((Seq<char>, u64), TokenV)| u.0.1 < nx && u.0 != a && #[trigger] s0.uses().contains(u) implies s1.uses().contains(
                u,
            ) by {
                if resolve(s0.scopes@, decl.name.name@) is None {
                    assert(defined_at(s0.uses(), a, decl.name.token@).contains(u));
                }
            }
        }
        assert(kept_below_but(&s2, &*state, nx, a)) by {
            assert(state.uses() =~= s2.uses());
        }
        lemma_but_join(&s0, &s1, &s2, nx, a);
        lemma_but_join(&s0, &s2, &*state, nx, a);
        assert(decl_prelude(s0, s1, decl));
        assert(expr_post(s1, s2, decl.init, opt_view(typ_opt)));
        assert(decl_finish(s0, s2, *state, decl, opt_view(typ_opt)));
    }
}

/// What declaring `vd` does before its initial value is analysed, taking
/// `before` to `mid`: the name's lint, and an error where the name is
/// already bound; otherwise the name defined by its token at its address in
/// the innermost scope, with that token as its one usage; and the variable
/// marked as being initialised. Nothing else changes.
pub open spec fn decl_prelude(before: AnalysisState, mid: AnalysisState, vd: VarDecl) -> bool {
    let a = (vd.name.name@, before.last_scope_addr.n);
    let dup = resolve(before.scopes@, vd.name.name@) is Some;
    &&& diags_view(mid.analysis.diagnostics@) == diags_view(before.analysis.diagnostics@) + name_lints(
        vd.name.name@,
        vd.name.token@,
    ) + (if dup {
        seq![error_diag(ErrorV::DuplicateVar, vd.name.token@)]
    } else {
        seq![]
    })
    &&& mid.initting_var_opt == Some(vd.name.name)
    &&& mid.scopes == before.scopes
    &&& mid.vars == before.vars
    &&& mid.last_scope_addr == before.last_scope_addr
    &&& mid.analysis.defn_infos == before.analysis.defn_infos
    &&& mid.analysis.non_var_tokens == before.analysis.non_var_tokens
    &&& if dup {
        &&& mid.analysis.definitions == before.analysis.definitions
        &&& mid.analysis.usages == before.analysis.usages
    } else {
        &&& table_get(mid.analysis.definitions@, a) == Some(TermDefn::UserDefined { token: vd.name.token })
        &&& forall|q: (Seq<char>, u64)|
            q != a ==> #[trigger] table_get(mid.analysis.definitions@, q) == table_get(before.analysis.definitions@, q)
        &&& mid.uses() == defined_at(before.uses(), a, vd.name.token@)
    }
}

/// What declaring `vd` does after its initial value, of type `t`, is
/// analysed, taking `mid` to `after` (`before` being the state the
/// declaration started from, `a` the variable's address there): where the
/// value has a type, the variable has it at `a`, the name is bound to `a`
/// in the innermost scope, and what is known of `a` is how to highlight it
/// (a function or a variable), that type and the name's token; then the
/// variable being initialised is the one before. Nothing else changes.
pub open spec fn decl_finish(before: AnalysisState, mid: AnalysisState, after: AnalysisState, vd: VarDecl, t: Option<
    TypeV,
>) -> bool {
    let a = (vd.name.name@, before.last_scope_addr.n);
    &&& after.initting_var_opt == before.initting_var_opt
    &&& after.analysis.diagnostics == mid.analysis.diagnostics
    &&& after.analysis.definitions == mid.analysis.definitions
    &&& after.analysis.usages == mid.analysis.usages
    &&& after.analysis.non_var_tokens == mid.analysis.non_var_tokens
    &&& after.last_scope_addr == mid.last_scope_addr
    &&& match t {
        None => {
            &&& after.vars == mid.vars
            &&& after.scopes == mid.scopes
            &&& after.analysis.defn_infos == mid.analysis.defn_infos
        },
        Some(ty) => {
            &&& table_get(after.vars@, a) matches Some(x) && x@ == ty
            &&& forall|q: (Seq<char>, u64)| q != a ==> #[trigger] table_get(after.vars@, q) == table_get(mid.vars@, q)
            &&& after.scopes@.len() == mid.scopes@.len()
            &&& after.scopes@.drop_last() == mid.scopes@.drop_last()
            &&& after.scopes@.last().address == mid.scopes@.last().address
            &&& table_get(after.scopes@.last().env.bindings@, vd.name.name@) matches Some(b) && b@ == a
            &&& forall|q: Seq<char>|
                q != vd.name.name@ ==> #[trigger] table_get(after.scopes@.last().env.bindings@, q) == table_get(
                    mid.scopes@.last().env.bindings@,
                    q,
                )
            &&& table_get(after.analysis.defn_infos@, a) matches Some(info) && info.organic_type@ == ty && info.token
                == vd.name.token && info.hl_type == (if ty is Function {
                HighlightingType::Function
            } else {
                HighlightingType::Variable
            })
            &&& forall|q: (Seq<char>, u64)|
                q != a ==> #[trigger] table_get(after.analysis.defn_infos@, q) == table_get(mid.analysis.defn_infos@, q)
        },
    }
}

/// `after` is `before` with only the diagnostics `d` added at the end.
pub open spec fn only_diags_added(before: AnalysisState, after: AnalysisState, d: Seq<DiagV>) -> bool {
    &&& diags_view(after.analysis.diagnostics@) == diags_view(before.analysis.diagnostics@) + d
    &&& after.analysis.definitions == before.analysis.definitions
    &&& after.analysis.defn_infos == before.analysis.defn_infos
    &&& after.analysis.non_var_tokens == before.analysis.non_var_tokens
    &&& after.analysis.usages == before.analysis.usages
    &&& after.initting_var_opt == before.initting_var_opt
    &&& after.last_scope_addr == before.last_scope_addr
    &&& after.scopes == before.scopes
    &&& after.vars == before.vars
}

/// How a negation ends, from the state `mid` its operand left, the operand
/// having the type `t`: without a type nothing more happens and there is
/// none; a number stays a number; another type is reported as a mismatch
/// against a number at the negation's token `tok`, and there is no type.
pub open spec fn negation_step(mid: AnalysisState, after: AnalysisState, t: Option<TypeV>, tok: TokenV, r: Option<TypeV>) -> bool {
    match t {
        None => r is None && after == mid,
        Some(TypeV::Number) => r == Some(TypeV::Number) && after == mid,
        Some(other) => r is None && only_diags_added(
            mid,
            after,
            seq![error_diag(ErrorV::TypeMismatch { expected: TypeV::Number, got: other }, tok)],
        ),
    }
}

/// What analysing the expression `e` makes of the state `before`, whatever
/// `e` holds (function literals too), `r` being the type found: `after`
/// grows from `before` with the same scopes, and defines and types anew
/// only addresses of scopes its function literals open. A number or a string has its
/// type, an operation the operator's; a negation has no type or a number's,
/// a list none or a list type; a function literal none, or a function type
/// with its analysed parameters' types whose return type is what its body
/// gives, the body analysed last (see [`body_result`] and [`body_done`]); a
/// variable has a type exactly where its name is bound, the one its address
/// has.
pub open spec fn expr_outcome(before: AnalysisState, after: AnalysisState, e: Expr, r: Option<TypeV>) -> bool {
    &&& before.grows_into(&after)
    &&& after.scopes@ == before.scopes@
    &&& kept_below(&before, &after, next_scope(before.last_scope_addr.n) as int)
    &&& match e {
        Expr::Number { .. } => r == Some(TypeV::Number),
        Expr::String { .. } => r == Some(TypeV::String),
        Expr::Op { operator, .. } => r == Some(op_type(operator)),
        Expr::Negated { .. } => r is None || r == Some(TypeV::Number),
        Expr::List { .. } => r is None || r->0 is List,
        Expr::Function { value, .. } => (r is None || r->0 is Function) && (r matches Some(t) ==> (
        t matches TypeV::Function(ps, ret) && exists|st: AnalysisState, params: Seq<(Token, ParamInfo)>|
            #[trigger] body_result(before, st, params, value, *ret) && body_done(st, after, params, value.body@, *ret)
                && params_typed(ps, params))),
        Expr::LValue { name, .. } => (r is Some <==> resolve(before.scopes@, name.name@) is Some) && (r matches Some(
            t,
        ) ==> t == table_get(before.vars@, resolve(before.scopes@, name.name@)->0@)->0@),
        _ => true,
    }
}

/// What analysing `e` makes of `before`, as [`expr_outcome`] says. Moreover,
/// a grouping is analysed as the expression in it; a call of an unbound
/// name only reports it, and a call of a bound one warns about arguments
/// named again, analyses its arguments in order (see [`args_analysed`]) and
/// then checks the callee (see [`callee_step`]); a list as
/// [`list_steps`] says; a function literal analyses its parameters in
/// order (see [`formals_analysed`]), stopping at a default without a type
/// (and then it has none), and then its body (see [`body_done`]); a
/// negation as its operand, and then as [`negation_step`] says; an
/// operation as its left
/// operand, then its right one (each as [`expr_outcome`] says, from the
/// state the one before left, with the types `lt` and `rt`), and then the
/// problems of the operands' types are reported (see [`op_diags`]) and
/// nothing else changes.
pub open spec fn expr_post(before: AnalysisState, after: AnalysisState, e: Expr, r: Option<TypeV>) -> bool {
    &&& expr_outcome(before, after, e, r)
    &&& e matches Expr::Grouping { value, .. } ==> expr_outcome(before, after, *value, r)
    &&& e matches Expr::Call { call, .. } ==> {
        &&& resolve(before.scopes@, call.func.name@) is None ==> r is None && only_diag_pushed(
            before,
            after,
            error_diag(ErrorV::NoSuchFn, call.func.token@),
        )
        &&& resolve(before.scopes@, call.func.name@) is Some ==> bound_call(before, after, call, r)
    }
    &&& e matches Expr::List { values, .. } ==> list_steps(before, after, values@, r)
    &&& e matches Expr::Function { value, .. } ==> exists|states: Seq<AnalysisState>, params: Seq<(Token, ParamInfo)>|
        #[trigger] formals_analysed(states, value.formals@, params) && states[0] == before && match r {
            None => params.len() < value.formals@.len() && formal_step(
                states.last(),
                after,
                value.formals@,
                params.len() as int,
                None,
            ),
            Some(t) => params.len() == value.formals@.len() && (t matches TypeV::Function(ps, ret) && body_result(
                before,
                states.last(),
                params,
                value,
                *ret,
            ) && body_done(states.last(), after, params, value.body@, *ret) && params_typed(ps, params)),
        }
    &&& e matches Expr::Negated { value, token, .. } ==> exists|mid: AnalysisState, t: Option<TypeV>|
        #[trigger] expr_outcome(before, mid, *value, t) && negation_step(mid, after, t, token@, r)
    &&& e matches Expr::Op { left, operator, right, .. } ==> exists|
        mid: AnalysisState,
        end: AnalysisState,
        lt: Option<TypeV>,
        rt: Option<TypeV>,
    |
        #[trigger] expr_outcome(before, mid, *left, lt) && #[trigger] expr_outcome(mid, end, *right, rt)
            && only_diags_added(end, after, op_diags(operator, lt, rt, expr_token(&*left), expr_token(&*right)))
}

/// Analyses an expression; the result is its type, where it has one. For
/// any expression, [`expr_post`] says what becomes of the state, and only
/// addresses of scopes opened by its function literals are defined or typed
/// anew. Where the expression holds no function literal, what it reports,
/// the uses and the tokens it records and its type are those
/// [`expr_report`], [`expr_uses`] and [`expr_nvts`] give, and it defines and
/// binds nothing.
pub fn crawl_expr(state: &mut AnalysisState, expr: Expr) -> (r: Option<OrganicType>)
    requires
        old(state).wf(),
    ensures
        kept_below(old(state), final(state), next_scope(old(state).last_scope_addr.n) as int),
        old(state).grows_into(final(state)),
        final(state).scopes@ == old(state).scopes@,
        expr_post(*old(state), *final(state), expr, opt_view(r)),
        fn_free(expr) ==> reported(
            old(state),
            final(state),
            r,
            expr_report(old(state).scopes@, old(state).vars@, old(state).initting_var_opt, expr),
        ),
        fn_free(expr) ==> final(state).uses() == old(state).uses().union(
            expr_uses(old(state).scopes@, old(state).vars@, old(state).initting_var_opt, expr),
        ),
        fn_free(expr) ==> final(state).analysis.non_var_tokens@ == old(state).analysis.non_var_tokens@ + expr_nvts(
            old(state).scopes@,
            old(state).vars@,
            old(state).initting_var_opt,
            expr,
        ),
    decreases expr, 0int,
{
    let ghost s0 = *state;
    let ghost e0 = expr;
    match expr {
        Expr::Call { call, .. } => crawl_function_call(state, call),
        Expr::Function { value, .. } => crawl_function_def(state, value),
        Expr::Grouping { value, .. } => crawl_expr(state, *value),
        Expr::List { values, .. } => crawl_list(state, values),
        Expr::LValue { name, token, .. } => {
            let ghost tv = token@;
            let r = crawl_lvalue(state, &name, token);
            proof {
                let self_ref = if s0.initting_var_opt matches Some(v) && v@ == name.name@ {
                    seq![error_diag(ErrorV::VarCannotInitInTermsOfSelf, tv)]
                } else {
                    seq![]
                };
                if resolve(s0.scopes@, name.name@) is None {
                    assert(diags_view(state.analysis.diagnostics@) =~= diags_view(s0.analysis.diagnostics@)
                        + self_ref.push(error_diag(ErrorV::NoSuchVariable, tv)));
                } else {
                    assert(diags_view(state.analysis.diagnostics@) =~= diags_view(s0.analysis.diagnostics@)
                        + self_ref);
                }
            }
            r
        },
        Expr::Negated { value, token, .. } => crawl_negated(state, *value, token),
        Expr::Number { token, .. } => {
            state.analysis.non_var_tokens.push(NonVarToken::Number(token));
            proof {
                assert(s0.analysis.non_var_tokens@.is_prefix_of(state.analysis.non_var_tokens@));
                assert(diags_view(s0.analysis.diagnostics@).is_prefix_of(diags_view(state.analysis.diagnostics@)));
                assert(diags_view(state.analysis.diagnostics@) =~= diags_view(s0.analysis.diagnostics@) + seq![]);
            }
            Some(OrganicType::Number)
        },
        Expr::Op { left, operator, right, .. } => {
            let left_token = left.get_token();
            let right_token = right.get_token();
            let ghost lv = *left;
            let ghost rv = *right;
            let lt = crawl_expr(state, *left);
            let ghost s1 = *state;
            let rt = crawl_expr(state, *right);
            let ghost s2 = *state;
            check_operands(state, operator, &lt, &rt, left_token, right_token);
            proof {
                lemma_grows_trans(&s0, &s1, &s2);
                lemma_grows_trans(&s0, &s2, &*state);
                assert(expr_post(s0, s1, lv, opt_view(lt)));
                assert(expr_post(s1, s2, rv, opt_view(rt)));
                assert(only_diags_added(
                    s2,
                    *state,
                    op_diags(operator, opt_view(lt), opt_view(rt), expr_token(&lv), expr_token(&rv)),
                ));
                if fn_free(lv) && fn_free(rv) {
                    let dl = expr_report(s0.scopes@, s0.vars@, s0.initting_var_opt, lv).0;
                    let dr = expr_report(s0.scopes@, s0.vars@, s0.initting_var_opt, rv).0;
                    assert(diags_view(state.analysis.diagnostics@) =~= diags_view(s0.analysis.diagnostics@) + (dl + dr
                        + op_diags(operator, opt_view(lt), opt_view(rt), left_token@, right_token@)));
                }
            }
            let res = match operator {
                Operator::Plus | Operator::Minus | Operator::Times | Operator::Divide => Some(OrganicType::Number),
                _ => Some(OrganicType::Boolean),
            };
            proof {
                assert(opt_view(res) == Some(op_type(operator)));
                assert(s0.grows_into(&*state));
                assert(state.scopes@ == s0.scopes@);
                assert(e0 is Op);
                assert(*e0->Op_left == lv && *e0->Op_right == rv && e0->Op_operator == operator);
                assert(expr_outcome(s0, s1, lv, opt_view(lt)) && expr_outcome(s1, s2, rv, opt_view(rt)));
                assert(expr_post(s0, *state, e0, opt_view(res)));
            }
            res
        },
        Expr::String { value, token, .. } => {
            state.analysis.non_var_tokens.push(NonVarToken::String(token, value));
            proof {
                assert(s0.analysis.non_var_tokens@.is_prefix_of(state.analysis.non_var_tokens@));
                assert(diags_view(s0.analysis.diagnostics@).is_prefix_of(diags_view(state.analysis.diagnostics@)));
                assert(diags_view(state.analysis.diagnostics@) =~= diags_view(s0.analysis.diagnostics@) + seq![]);
            }
            Some(OrganicType::String)
        },
    }
}

/// The states `states` that analysing the first `ts.len()` elements of
/// `values` passes through, each element analysed (as [`expr_outcome`]
/// says) from the state the one before left, with the type in `ts`.
pub open spec fn items_analysed(states: Seq<AnalysisState>, values: Seq<Expr>, ts: Seq<TypeV>) -> bool {
    &&& states.len() == ts.len() + 1
    &&& ts.len() <= values.len()
    &&& forall|i: int|
        #![trigger values[i]]
        0 <= i < ts.len() ==> expr_outcome(states[i], states[i + 1], values[i], Some(ts[i]))
}

/// What analysing the list of `values` makes of `before`: its elements are
/// analysed in order (see [`items_analysed`]) until one has no type, which
/// leaves the list without one; where all have types, the list's type is
/// the list of their common type (see [`list_type`]).
pub open spec fn list_steps(before: AnalysisState, after: AnalysisState, values: Seq<Expr>, r: Option<TypeV>) -> bool {
    exists|states: Seq<AnalysisState>, ts: Seq<TypeV>|
        #[trigger] items_analysed(states, values, ts) && states[0] == before && ((ts.len() == values.len()
            && states.last() == after && r == list_type(ts)) || (ts.len() < values.len() && r is None && expr_outcome(
            states.last(),
            after,
            values[ts.len() as int],
            None,
        )))
}

/// Analyses the elements of a list in order, up to the first without a
/// type; the list's type is a list of the elements' common type.
pub fn crawl_list(state: &mut AnalysisState, values: Vec<Expr>) -> (r: Option<OrganicType>)
    requires
        old(state).wf(),
    ensures
        kept_below(old(state), final(state), next_scope(old(state).last_scope_addr.n) as int),
        old(state).grows_into(final(state)),
        final(state).scopes@ == old(state).scopes@,
        r is None || opt_view(r)->0 is List,
        list_steps(*old(state), *final(state), values@, opt_view(r)),
        exprs_fn_free(values@) ==> reported(
            old(state),
            final(state),
            r,
            list_report(items_report(old(state).scopes@, old(state).vars@, old(state).initting_var_opt, values@)),
        ),
        exprs_fn_free(values@) ==> final(state).uses() == old(state).uses().union(
            items_uses(old(state).scopes@, old(state).vars@, old(state).initting_var_opt, values@),
        ),
        exprs_fn_free(values@) ==> final(state).analysis.non_var_tokens@ == old(state).analysis.non_var_tokens@
            + items_nvts(old(state).scopes@, old(state).vars@, old(state).initting_var_opt, values@),
    decreases values, 0int,
{
    let ghost s0 = *state;
    let ghost vals = values@;
    let ghost items = |es: Seq<Expr>| items_report(s0.scopes@, s0.vars@, s0.initting_var_opt, es);
    let ghost iu = |es: Seq<Expr>| items_uses(s0.scopes@, s0.vars@, s0.initting_var_opt, es);
    let ghost inn = |es: Seq<Expr>| items_nvts(s0.scopes@, s0.vars@, s0.initting_var_opt, es);
    let mut types: Vec<OrganicType> = Vec::new();
    let mut rest = values;
    let ghost mut states: Seq<AnalysisState> = seq![s0];
    proof {
        lemma_grows_refl(&s0);
        assert(rest@ =~= vals.skip(0));
        assert(diags_view(s0.analysis.diagnostics@) + items(vals).0 =~= diags_view(state.analysis.diagnostics@)
            + items(rest@).0);
        assert(s0.uses().union(iu(vals)) =~= state.uses().union(iu(rest@)));
        assert(s0.analysis.non_var_tokens@ + inn(vals) =~= state.analysis.non_var_tokens@ + inn(rest@));
        if let Some(ts) = items(rest@).1 {
            assert(types_view(types@) + ts =~= ts);
        }
    }
    while rest.len() > 0
        invariant
            s0.grows_into(&*state),
            kept_below(&s0, &*state, next_scope(s0.last_scope_addr.n) as int),
            items_analysed(states, vals, types_view(types@)),
            states[0] == s0,
            states.last() == *state,
            state.scopes@ == s0.scopes@,
            rest@ == vals.skip(types@.len() as int),
            types@.len() <= vals.len(),
            vals == values@,
            s0 == *old(state),
            items == |es: Seq<Expr>| items_report(s0.scopes@, s0.vars@, s0.initting_var_opt, es),
            iu == |es: Seq<Expr>| items_uses(s0.scopes@, s0.vars@, s0.initting_var_opt, es),
            inn == |es: Seq<Expr>| items_nvts(s0.scopes@, s0.vars@, s0.initting_var_opt, es),
            exprs_fn_free(vals) ==> {
                &&& state.vars == s0.vars
                &&& state.analysis.definitions == s0.analysis.definitions
                &&& state.analysis.defn_infos == s0.analysis.defn_infos
                &&& state.last_scope_addr == s0.last_scope_addr
                &&& exprs_fn_free(rest@)
                &&& s0.uses().union(iu(vals)) == state.uses().union(iu(rest@))
                &&& s0.analysis.non_var_tokens@ + inn(vals) == state.analysis.non_var_tokens@ + inn(rest@)
                &&& diags_view(s0.analysis.diagnostics@) + items(vals).0 == diags_view(
                    state.analysis.diagnostics@,
                ) + items(rest@).0
                &&& items(vals).1 == match items(rest@).1 {
                    Some(ts) => Some(types_view(types@) + ts),
                    None => None,
                }
            },
        decreases rest@.len(),
    {
        let ghost rb = rest@;
        let value = rest.remove(0);
        proof {
            assert(value == rb[0]);
            assert(value == vals[types@.len() as int]);
            assert(rest@ =~= vals.skip(types@.len() as int + 1));
            assert(rest@ =~= rb.drop_first());
            assert(decreases_to!(values => values@));
            assert(decreases_to!(values@ => vals[types@.len() as int]));
        }
        let ghost s1 = *state;
        let ghost tv0 = types_view(types@);
        match crawl_expr(state, value) {
            Some(t) => {
                let ghost t_view = t@;
                let ghost tv_before = types_view(types@);
                let ghost st_before = states;
                types.push(t);
                proof {
                    states = states.push(*state);
                    assert(types_view(types@) =~= tv_before.push(t_view));
                    assert forall|i: int|
                        #![trigger vals[i]]
                        0 <= i < types_view(types@).len() implies expr_outcome(
                        states[i],
                        states[i + 1],
                        vals[i],
                        Some(types_view(types@)[i]),
                    ) by {
                        if i < tv_before.len() {
                            assert(states[i] == st_before[i] && states[i + 1] == st_before[i + 1]);
                            assert(types_view(types@)[i] == tv_before[i]);
                        } else {
                            assert(states[i] == s1 && states[i + 1] == *state);
                            assert(vals[i] == value);
                        }
                    }
                }
                proof {
                    if exprs_fn_free(vals) {
                        let d = expr_report(s0.scopes@, s0.vars@, s0.initting_var_opt, value).0;
                        let d2 = items(rest@).0;
                        assert(diags_view(s0.analysis.diagnostics@) + items(vals).0 =~= diags_view(
                            state.analysis.diagnostics@,
                        ) + items(rest@).0) by {
                            assert(items(rb).0 == d + d2);
                            assert(diags_view(s1.analysis.diagnostics@) + (d + d2) =~= (diags_view(
                                s1.analysis.diagnostics@,
                            ) + d) + d2);
                        }
                        assert(types_view(types@) =~= tv0.push(t_view));
                        let u = expr_uses(s0.scopes@, s0.vars@, s0.initting_var_opt, value);
                        assert(iu(rb) == u.union(iu(rest@)));
                        assert(s1.uses().union(u.union(iu(rest@))) =~= state.uses().union(iu(rest@)));
                        let n = expr_nvts(s0.scopes@, s0.vars@, s0.initting_var_opt, value);
                        assert(inn(rb) == n + inn(rest@));
                        assert(s1.analysis.non_var_tokens@ + (n + inn(rest@)) =~= state.analysis.non_var_tokens@
                            + inn(rest@));
                        if let Some(ts) = items(rest@).1 {
                            assert(tv0 + (seq![t_view] + ts) =~= types_view(types@) + ts);
                        }
                    }
                }
            },
            None => {
                proof {
                    lemma_grows_trans(&s0, &s1, &*state);
                    lemma_kept_trans(&s0, &s1, &*state);
                    assert(vals[types_view(types@).len() as int] == value);
                    assert(expr_outcome(s1, *state, value, None));
                    assert(list_steps(s0, *state, vals, None));
                    if exprs_fn_free(vals) {
                        let u = expr_uses(s0.scopes@, s0.vars@, s0.initting_var_opt, value);
                        assert(iu(rb) == u);
                        assert(s1.uses().union(u) =~= state.uses());
                        let n = expr_nvts(s0.scopes@, s0.vars@, s0.initting_var_opt, value);
                        assert(inn(rb) == n);
                    }
                }
                return None;
            },
        }
        proof {
            lemma_grows_trans(&s0, &s1, &*state);
            lemma_kept_trans(&s0, &s1, &*state);
        }
    }
    let r = list_type_of(&types);
    proof {
        assert(types_view(types@).len() == vals.len());
        assert(list_steps(s0, *state, vals, opt_view(r)));
        if r is Some {
            let tv = types_view(types@);
            assert(tv.len() == types@.len());
        }
        if exprs_fn_free(vals) {
            assert(types_view(types@) + seq![] =~= types_view(types@));
            assert(diags_view(state.analysis.diagnostics@) + seq![] =~= diags_view(state.analysis.diagnostics@));
            assert(state.uses().union(iu(rest@)) =~= state.uses());
            assert(state.analysis.non_var_tokens@ + inn(rest@) =~= state.analysis.non_var_tokens@);
        }
    }
    r
}

/// Analyses a negated expression: it must be a number (see
/// [`negation_step`]).
pub fn crawl_negated(state: &mut AnalysisState, expr: Expr, token: Token) -> (r: Option<OrganicType>)
    requires
        old(state).wf(),
    ensures
        kept_below(old(state), final(state), next_scope(old(state).last_scope_addr.n) as int),
        old(state).grows_into(final(state)),
        final(state).scopes@ == old(state).scopes@,
        r is None || opt_view(r) == Some(TypeV::Number),
        exists|mid: AnalysisState, t: Option<TypeV>|
            #[trigger] expr_outcome(*old(state), mid, expr, t) && negation_step(mid, *final(state), t, token@, opt_view(r)),
        fn_free(expr) ==> reported(
            old(state),
            final(state),
            r,
            negation_report(
                expr_report(old(state).scopes@, old(state).vars@, old(state).initting_var_opt, expr),
                token@,
            ),
        ),
        fn_free(expr) ==> final(state).uses() == old(state).uses().union(
            expr_uses(old(state).scopes@, old(state).vars@, old(state).initting_var_opt, expr),
        ),
        fn_free(expr) ==> final(state).analysis.non_var_tokens@ == old(state).analysis.non_var_tokens@ + expr_nvts(
            old(state).scopes@,
            old(state).vars@,
            old(state).initting_var_opt,
            expr,
        ),
    decreases expr, 1int,
{
    let ghost s0 = *state;
    let ghost ev = expr;
    let ghost tok = token@;
    let typ = crawl_expr(state, expr);
    let ghost s1 = *state;
    proof {
        assert(expr_outcome(s0, s1, ev, opt_view(typ)));
    }
    match typ {
        None => {
            proof {
                assert(negation_step(s1, *state, opt_view(typ), tok, None));
            }
            None
        },
        Some(t) => {
            let number = OrganicType::Number;
            if same_type(&t, &number) {
                proof {
                    assert(negation_step(s1, *state, opt_view(typ), tok, Some(TypeV::Number)));
                }
                Some(t)
            } else {
                let ghost tv = t@;
                push_error(state, token, AnalyzerErrorType::TypeMismatch { expected: OrganicType::Number, got: t });
                proof {
                    let rep = expr_report(s0.scopes@, s0.vars@, s0.initting_var_opt, expr);
                    if fn_free(expr) {
                        assert(diags_view(state.analysis.diagnostics@) =~= diags_view(s0.analysis.diagnostics@) + rep.0.push(
                            error_diag(ErrorV::TypeMismatch { expected: TypeV::Number, got: tv }, token@),
                        ));
                    }
                    assert(diags_view(s1.analysis.diagnostics@).is_prefix_of(diags_view(state.analysis.diagnostics@)));
                    assert(s1.analysis.non_var_tokens@.is_prefix_of(state.analysis.non_var_tokens@));
                    lemma_grows_trans(&s0, &s1, &*state);
                    assert(tv != TypeV::Number);
                    assert(diags_view(state.analysis.diagnostics@) =~= diags_view(s1.analysis.diagnostics@) + seq![
                        error_diag(ErrorV::TypeMismatch { expected: TypeV::Number, got: tv }, tok),
                    ]);
                    assert(negation_step(s1, *state, opt_view(typ), tok, None));
                }
                None
            }
        },
    }
}

/// Whether `s` names `name`.
fn contains_name(s: &Vec<String>, name: &String) -> (r: bool)
    ensures
        r == exists|i: int| 0 <= i < s@.len() && s@[i]@ == name@,
{
    let mut j: usize = 0;
    while j < s.len()
        invariant
            j <= s@.len(),
            forall|i: int| 0 <= i < j ==> s@[i]@ != name@,
        decreases s@.len() - j,
    {
        if s[j] == *name {
            return true;
        }
        j = j + 1;
    }
    false
}

/// Warns about each argument whose name an earlier argument has, in order.
fn warn_overrides(state: &mut AnalysisState, args: &Vec<Arg>)
    requires
        old(state).wf(),
    ensures
        old(state).grows_into(final(state)),
        diags_view(final(state).analysis.diagnostics@) == diags_view(old(state).analysis.diagnostics@)
            + overrides(args@),
        final(state).scopes == old(state).scopes,
        final(state).vars == old(state).vars,
        final(state).initting_var_opt == old(state).initting_var_opt,
        final(state).analysis.usages == old(state).analysis.usages,
        final(state).analysis.non_var_tokens == old(state).analysis.non_var_tokens,
        final(state).analysis.definitions == old(state).analysis.definitions,
        final(state).analysis.defn_infos == old(state).analysis.defn_infos,
        final(state).last_scope_addr == old(state).last_scope_addr,
{
    let ghost s0 = *state;
    let ghost arg_seq = args@;
    proof {
        lemma_grows_refl(&s0);
        assert(arg_seq.take(0) =~= Seq::<Arg>::empty());
        assert(arg_names(arg_seq.take(0)) =~= Seq::<Seq<char>>::empty());
        assert(diags_view(state.analysis.diagnostics@) =~= diags_view(s0.analysis.diagnostics@) + overrides(
            arg_seq.take(0),
        ));
    }
    let mut seen: Vec<String> = Vec::new();
    let mut i: usize = 0;
    while i < args.len()
        invariant
            s0.grows_into(&*state),
            state.scopes == s0.scopes,
            state.vars == s0.vars,
            state.initting_var_opt == s0.initting_var_opt,
            state.analysis.usages == s0.analysis.usages,
            state.analysis.non_var_tokens == s0.analysis.non_var_tokens,
            state.analysis.definitions == s0.analysis.definitions,
            state.analysis.defn_infos == s0.analysis.defn_infos,
            state.last_scope_addr == s0.last_scope_addr,
            i <= args.len(),
            args@ == arg_seq,
            diags_view(state.analysis.diagnostics@) == diags_view(s0.analysis.diagnostics@) + overrides(
                arg_seq.take(i as int),
            ),
            forall|x: Seq<char>|
                (exists|k: int| 0 <= k < seen@.len() && seen@[k]@ == x) <==> #[trigger] arg_names(
                    arg_seq.take(i as int),
                ).contains(x),
        decreases args.len() - i,
    {
        let ghost si = *state;
        let ghost pre = arg_seq.take(i as int);
        let ghost nm = arg_seq[i as int].name.name@;
        proof {
            assert(arg_seq.take(i + 1).drop_last() =~= pre);
            assert(arg_seq.take(i + 1).last() == arg_seq[i as int]);
            assert(arg_names(arg_seq.take(i + 1)) =~= arg_names(pre).push(nm));
        }
        if contains_name(&seen, &args[i].name.name) {
            push_warning(state, args[i].name.token.clone(), AnalyzerWarningType::ArgOverridesPrevious);
            proof {
                assert(diags_view(si.analysis.diagnostics@).is_prefix_of(diags_view(state.analysis.diagnostics@)));
                assert(si.analysis.non_var_tokens@.is_prefix_of(state.analysis.non_var_tokens@));
                lemma_grows_trans(&s0, &si, &*state);
                assert(arg_names(pre).contains(nm));
                assert(diags_view(state.analysis.diagnostics@) =~= diags_view(s0.analysis.diagnostics@)
                    + overrides(arg_seq.take(i + 1)));
                assert forall|x: Seq<char>|
                    (exists|k: int| 0 <= k < seen@.len() && seen@[k]@ == x) <==> #[trigger] arg_names(
                        arg_seq.take(i + 1),
                    ).contains(x) by {
                    lemma_push_contains(arg_names(pre), nm, x);
                }
            }
        } else {
            let ghost old_seen = seen@;
            seen.push(args[i].name.name.clone());
            proof {
                assert(!arg_names(pre).contains(nm));
                assert(diags_view(state.analysis.diagnostics@) =~= diags_view(s0.analysis.diagnostics@)
                    + overrides(arg_seq.take(i + 1)));
                assert forall|x: Seq<char>|
                    (exists|k: int| 0 <= k < seen@.len() && seen@[k]@ == x) <==> #[trigger] arg_names(
                        arg_seq.take(i + 1),
                    ).contains(x) by {
                    lemma_push_contains(arg_names(pre), nm, x);
                    if exists|k: int| 0 <= k < seen@.len() && seen@[k]@ == x {
                        let k = choose|k: int| 0 <= k < seen@.len() && seen@[k]@ == x;
                        if k < old_seen.len() {
                            assert(old_seen[k]@ == x);
                        }
                    }
                    if exists|k: int| 0 <= k < old_seen.len() && old_seen[k]@ == x {
                        let k = choose|k: int| 0 <= k < old_seen.len() && old_seen[k]@ == x;
                        assert(seen@[k]@ == x);
                    }
                    if x == nm {
                        assert(seen@[old_seen.len() as int]@ == x);
                    }
                }
            }
        }
        i = i + 1;
    }
    proof {
        assert(arg_seq.take(args.len() as int) =~= arg_seq);
    }
}

/// Analyses the values of a call's arguments in order; each argument is
/// checked with its value's type (unknown where the value has none) and
/// the token of its name.
fn crawl_args(state: &mut AnalysisState, args: Vec<Arg>) -> (actuals: Vec<(ParamInfo, Token)>)
    requires
        old(state).wf(),
    ensures
        kept_below(old(state), final(state), next_scope(old(state).last_scope_addr.n) as int),
        old(state).grows_into(final(state)),
        final(state).scopes@ == old(state).scopes@,
        actuals@.len() == args@.len(),
        exists|states: Seq<AnalysisState>|
            #[trigger] args_analysed(states, args@, actuals@) && states[0] == *old(state) && states.last()
                == *final(state),
        actual_marks(actuals@) == arg_marks(args@),
        forall|k: int| 0 <= k < actuals@.len() ==> !(#[trigger] actuals@[k]).0.2,
        args_fn_free(args@) ==> ({
            let scopes = old(state).scopes@;
            let vars = old(state).vars@;
            let init = old(state).initting_var_opt;
            &&& final(state).vars == old(state).vars
            &&& final(state).analysis.definitions == old(state).analysis.definitions
            &&& final(state).analysis.defn_infos == old(state).analysis.defn_infos
            &&& final(state).last_scope_addr == old(state).last_scope_addr
            &&& diags_view(final(state).analysis.diagnostics@) == diags_view(old(state).analysis.diagnostics@)
                + args_report(scopes, vars, init, args@).0
            &&& args_view(actuals@) == args_report(scopes, vars, init, args@).1
            &&& final(state).uses() == old(state).uses().union(args_uses(scopes, vars, init, args@))
            &&& final(state).analysis.non_var_tokens@ == old(state).analysis.non_var_tokens@ + args_nvts(
                scopes,
                vars,
                init,
                args@,
            )
        }),
    decreases args, 0int,
{
    let ghost s0 = *state;
    let ghost arg_seq = args@;
    let ghost orig = args;
    let ghost report = |xs: Seq<Arg>| args_report(s0.scopes@, s0.vars@, s0.initting_var_opt, xs);
    let ghost au = |xs: Seq<Arg>| args_uses(s0.scopes@, s0.vars@, s0.initting_var_opt, xs);
    let ghost an = |xs: Seq<Arg>| args_nvts(s0.scopes@, s0.vars@, s0.initting_var_opt, xs);
    let mut actuals: Vec<(ParamInfo, Token)> = Vec::new();
    let mut rest = args;
    let ghost mut states: Seq<AnalysisState> = seq![s0];
    proof {
        lemma_grows_refl(&s0);
        assert(rest@ =~= arg_seq.skip(0));
        assert(diags_view(s0.analysis.diagnostics@) + report(arg_seq).0 =~= diags_view(
            state.analysis.diagnostics@,
        ) + report(rest@).0);
        assert(report(arg_seq).1 =~= args_view(actuals@) + report(rest@).1);
        assert(s0.uses().union(au(arg_seq)) =~= state.uses().union(au(rest@)));
        assert(s0.analysis.non_var_tokens@ + an(arg_seq) =~= state.analysis.non_var_tokens@ + an(rest@));
        assert(actual_marks(actuals@) =~= arg_marks(arg_seq.take(0)));
    }
    while rest.len() > 0
        invariant
            s0.grows_into(&*state),
            kept_below(&s0, &*state, next_scope(s0.last_scope_addr.n) as int),
            state.scopes@ == s0.scopes@,
            states.len() == actuals@.len() + 1,
            states[0] == s0,
            states.last() == *state,
            forall|i: int|
                #![trigger arg_seq[i]]
                0 <= i < actuals@.len() ==> arg_step(states[i], states[i + 1], arg_seq[i], actuals@[i]),
            rest@ == arg_seq.skip(actuals@.len() as int),
            actuals@.len() <= arg_seq.len(),
            actual_marks(actuals@) == arg_marks(arg_seq.take(actuals@.len() as int)),
            forall|k: int| 0 <= k < actuals@.len() ==> !(#[trigger] actuals@[k]).0.2,
            arg_seq == orig@,
            orig == args,
            report == |xs: Seq<Arg>| args_report(s0.scopes@, s0.vars@, s0.initting_var_opt, xs),
            au == |xs: Seq<Arg>| args_uses(s0.scopes@, s0.vars@, s0.initting_var_opt, xs),
            an == |xs: Seq<Arg>| args_nvts(s0.scopes@, s0.vars@, s0.initting_var_opt, xs),
            args_fn_free(arg_seq) ==> {
                &&& state.vars == s0.vars
                &&& state.analysis.definitions == s0.analysis.definitions
                &&& state.analysis.defn_infos == s0.analysis.defn_infos
                &&& state.last_scope_addr == s0.last_scope_addr
                &&& args_fn_free(rest@)
                &&& diags_view(s0.analysis.diagnostics@) + report(arg_seq).0 == diags_view(
                    state.analysis.diagnostics@,
                ) + report(rest@).0
                &&& report(arg_seq).1 == args_view(actuals@) + report(rest@).1
                &&& s0.uses().union(au(arg_seq)) == state.uses().union(au(rest@))
                &&& s0.analysis.non_var_tokens@ + an(arg_seq) == state.analysis.non_var_tokens@ + an(rest@)
            },
        decreases rest@.len(),
    {
        let ghost rb = rest@;
        let arg = rest.remove(0);
        proof {
            let k = actuals@.len() as int;
            assert(arg == rb[0]);
            assert(arg == orig@[k]);
            assert(rest@ =~= arg_seq.skip(k + 1));
            assert(rest@ =~= rb.drop_first());
            assert(decreases_to!(orig => orig@));
            assert(decreases_to!(orig@ => orig@[k]));
            assert(decreases_to!(orig@[k] => orig@[k].value));
        }
        let ghost arg_k = arg;
        let Arg { name: arg_name, value } = arg;
        proof {
            let k = actuals@.len() as int;
            assert(value == arg_k.value);
            assert(arg_k == orig@[k]);
            assert(decreases_to!(orig => orig@[k].value));
        }
        let ghost si = *state;
        let ghost old_actuals = actuals@;
        let ghost nm = arg_name;
        let ghost value_g = value;
        let typ_opt = crawl_expr(state, value);
        let ghost tv_opt = opt_view(typ_opt);
        let typ = match typ_opt {
            Some(t) => t,
            None => OrganicType::Unknown,
        };
        proof {
            if tv_opt is None {
                assert(typ@ == TypeV::Unknown);
            }
        }
        proof {
            lemma_grows_trans(&s0, &si, &*state);
            lemma_kept_trans(&s0, &si, &*state);
        }
        let ghost entry = (ParamInfo(arg_name.name, typ, false), arg_name.token);
        actuals.push((ParamInfo(arg_name.name, typ, false), arg_name.token));
        proof {
            let k = old_actuals.len() as int;
            let old_states = states;
            states = states.push(*state);
            assert(arg_step(si, *state, arg_seq[k], entry)) by {
                assert(arg_seq[k] == arg_k);
                assert(arg_k.value == value_g);
            }
            assert forall|i: int|
                #![trigger arg_seq[i]]
                0 <= i < actuals@.len() implies arg_step(states[i], states[i + 1], arg_seq[i], actuals@[i]) by {
                if i < k {
                    assert(states[i] == old_states[i] && states[i + 1] == old_states[i + 1]);
                    assert(actuals@[i] == old_actuals[i]);
                } else {
                    assert(states[i] == si && states[i + 1] == *state);
                    assert(actuals@[i] == entry);
                }
            }
            assert(actuals@ == old_actuals.push(entry));
            assert(actual_marks(actuals@) =~= arg_marks(arg_seq.take(k + 1))) by {
                assert(arg_seq.take(k + 1) =~= arg_seq.take(k).push(arg_seq[k]));
                assert(nm == arg_seq[k].name);
                assert(actual_marks(actuals@) =~= actual_marks(old_actuals).push((nm.name@, nm.token)));
                assert(arg_marks(arg_seq.take(k + 1)) =~= arg_marks(arg_seq.take(k)).push((nm.name@, nm.token)));
            }
            assert forall|j: int| 0 <= j < actuals@.len() implies !(#[trigger] actuals@[j]).0.2 by {
                if j < k {
                    assert(actuals@[j] == old_actuals[j]);
                }
            }
            if args_fn_free(arg_seq) {
                let d = expr_report(s0.scopes@, s0.vars@, s0.initting_var_opt, rb[0].value).0;
                let d2 = report(rest@).0;
                assert(report(rb).0 == d + d2);
                assert(diags_view(si.analysis.diagnostics@) + (d + d2) =~= (diags_view(
                    si.analysis.diagnostics@,
                ) + d) + d2);
                assert(args_view(actuals@) =~= args_view(old_actuals).push(
                    crate::analyzer::call_check::arg_view(entry),
                ));
                assert(args_view(old_actuals) + (seq![crate::analyzer::call_check::arg_view(entry)] + report(
                    rest@,
                ).1) =~= args_view(actuals@) + report(rest@).1);
                let u = expr_uses(s0.scopes@, s0.vars@, s0.initting_var_opt, rb[0].value);
                assert(au(rb) == u.union(au(rest@)));
                assert(si.uses().union(u.union(au(rest@))) =~= state.uses().union(au(rest@)));
                let n = expr_nvts(s0.scopes@, s0.vars@, s0.initting_var_opt, rb[0].value);
                assert(an(rb) == n + an(rest@));
                assert(si.analysis.non_var_tokens@ + (n + an(rest@)) =~= state.analysis.non_var_tokens@ + an(
                    rest@,
                ));
            }
        }
    }
    proof {
        assert(args_analysed(states, arg_seq, actuals@));
        assert(arg_seq.take(actuals@.len() as int) =~= arg_seq);
        if args_fn_free(arg_seq) {
            assert(diags_view(state.analysis.diagnostics@) + seq![] =~= diags_view(state.analysis.diagnostics@));
            assert(args_view(actuals@) + seq![] =~= args_view(actuals@));
            assert(state.uses().union(au(rest@)) =~= state.uses());
            assert(state.analysis.non_var_tokens@ + seq![] =~= state.analysis.non_var_tokens@);
        }
    }
    actuals
}

/// What analysing a call `fc` of a bound name does, taking `before` to
/// `after` with the type `r`: arguments named again are warned about, the
/// arguments analysed in order (see [`args_analysed`]) and then the callee
/// checked (see [`callee_step`]).
pub open spec fn bound_call(before: AnalysisState, after: AnalysisState, fc: FuncCall, r: Option<TypeV>) -> bool {
    exists|sw: AnalysisState, states: Seq<AnalysisState>, acts: Seq<(ParamInfo, Token)>|
        #[trigger] args_analysed(states, fc.args@, acts) && #[trigger] only_diags_added(before, sw, overrides(fc.args@))
            && states[0] == sw && callee_step(states.last(), after, fc, acts, r)
}

/// How analysing the argument `arg` takes `before` to `after`, giving the
/// actual `act`: its value analysed as [`expr_outcome`] says, the actual
/// carrying the argument's name and token and the value's type (unknown
/// where it has none), without a default.
pub open spec fn arg_step(before: AnalysisState, after: AnalysisState, arg: Arg, act: (ParamInfo, Token)) -> bool {
    &&& act.0.0@ == arg.name.name@
    &&& !act.0.2
    &&& act.1 == arg.name.token
    &&& expr_outcome(before, after, arg.value, Some(act.0.1@)) || (act.0.1@ == TypeV::Unknown && expr_outcome(
        before,
        after,
        arg.value,
        None,
    ))
}

/// The states `states` that analysing the arguments `args` in order passes
/// through, giving the actuals `acts` (see [`arg_step`]).
pub open spec fn args_analysed(states: Seq<AnalysisState>, args: Seq<Arg>, acts: Seq<(ParamInfo, Token)>) -> bool {
    &&& states.len() == args.len() + 1
    &&& acts.len() == args.len()
    &&& forall|i: int| #![trigger args[i]] 0 <= i < args.len() ==> arg_step(states[i], states[i + 1], args[i], acts[i])
}

/// How a call `fc` whose callee is bound ends, from the state `s1` its
/// arguments left with the actuals `acts`: a callee of a function type is
/// checked (see [`check_call_spec`]), its use recorded and the named
/// arguments marked; a callee of another type is reported as a mismatch
/// against the type the call gives it, and the call has no type.
pub open spec fn callee_step(s1: AnalysisState, after: AnalysisState, fc: FuncCall, acts: Seq<(ParamInfo, Token)>, r: Option<
    TypeV,
>) -> bool {
    let addr = resolve(s1.scopes@, fc.func.name@)->0;
    match table_get(s1.vars@, addr@)->0 {
        OrganicType::Function(f) => {
            &&& diags_view(after.analysis.diagnostics@) == diags_view(s1.analysis.diagnostics@) + check_call_spec(
                &*f,
                acts,
                fc.func.token@,
            ).0
            &&& r == check_call_spec(&*f, acts, fc.func.token@).1
            &&& after.vars == s1.vars
            &&& after.analysis.definitions == s1.analysis.definitions
            &&& after.analysis.defn_infos == s1.analysis.defn_infos
            &&& after.last_scope_addr == s1.last_scope_addr
            &&& after.uses() == s1.uses().insert((addr@, fc.func.token@))
            &&& after.analysis.non_var_tokens@ == s1.analysis.non_var_tokens@ + named_marks(actual_marks(acts), addr, f)
        },
        other => r is None && only_diags_added(
            s1,
            after,
            seq![error_diag(ErrorV::TypeMismatch { expected: other@, got: called_as(args_view(acts)) }, fc.func.token@)],
        ),
    }
}

/// Analyses a call: an unbound callee is an error, and then nothing else is
/// analysed or recorded; an argument named again is warned about; the arguments are analysed in order; a callee that is
/// not a function is a type mismatch; a call of a function is checked by
/// [`crawl_verified_function_call`].
#[verifier::rlimit(40)]
pub fn crawl_function_call(state: &mut AnalysisState, fn_call: FuncCall) -> (r: Option<OrganicType>)
    requires
        old(state).wf(),
    ensures
        kept_below(old(state), final(state), next_scope(old(state).last_scope_addr.n) as int),
        old(state).grows_into(final(state)),
        final(state).scopes@ == old(state).scopes@,
        resolve(old(state).scopes@, fn_call.func.name@) is None ==> r is None && only_diag_pushed(
            *old(state),
            *final(state),
            error_diag(ErrorV::NoSuchFn, fn_call.func.token@),
        ),
        resolve(old(state).scopes@, fn_call.func.name@) is Some ==> bound_call(
            *old(state),
            *final(state),
            fn_call,
            opt_view(r),
        ),
        call_fn_free(fn_call) ==> reported(
            old(state),
            final(state),
            r,
            call_report_of(old(state).scopes@, old(state).vars@, old(state).initting_var_opt, fn_call),
        ),
        call_fn_free(fn_call) ==> final(state).uses() == old(state).uses().union(
            call_uses(old(state).scopes@, old(state).vars@, old(state).initting_var_opt, fn_call),
        ),
        call_fn_free(fn_call) ==> final(state).analysis.non_var_tokens@ == old(state).analysis.non_var_tokens@
            + call_nvts(old(state).scopes@, old(state).vars@, old(state).initting_var_opt, fn_call),
    decreases fn_call, 0int,
{
    let ghost s0 = *state;
    let ghost orig = fn_call;
    let ghost arg_seq = fn_call.args@;
    let FuncCall { func, args } = fn_call;
    let Symbol { name, token } = func;
    match resolve_addr(state, &name) {
        None => {
            push_error(state, token, AnalyzerErrorType::NoSuchFn);
            proof {
                assert(diags_view(s0.analysis.diagnostics@).is_prefix_of(diags_view(state.analysis.diagnostics@)));
                assert(s0.analysis.non_var_tokens@.is_prefix_of(state.analysis.non_var_tokens@));
                assert(diags_view(state.analysis.diagnostics@) =~= diags_view(s0.analysis.diagnostics@) + seq![
                    error_diag(ErrorV::NoSuchFn, orig.func.token@),
                ]);
                assert(state.analysis.non_var_tokens@ =~= s0.analysis.non_var_tokens@ + seq![]);
                assert(state.uses() =~= s0.uses().union(Set::empty()));
            }
            None
        },
        Some(addr) => {
            proof {
                lemma_resolved_has_type(state, name@);
            }
            warn_overrides(state, &args);
            let ghost sw = *state;
            proof {
                assert(decreases_to!(orig => orig.args));
            }
            let actuals = crawl_args(state, args);
            let ghost s1 = *state;
            let ghost states = choose|states: Seq<AnalysisState>|
                #[trigger] args_analysed(states, arg_seq, actuals@) && states[0] == sw && states.last() == s1;
            proof {
                lemma_grows_trans(&s0, &sw, &s1);
                assert(only_diags_added(s0, sw, overrides(arg_seq)));
                assert(sw.uses() =~= s0.uses());
                assert(kept_below(&s0, &sw, next_scope(s0.last_scope_addr.n) as int));
                lemma_kept_join(&s0, &sw, &s1, next_scope(s0.last_scope_addr.n) as int);
            }
            match resolve_type(state, &addr) {
                OrganicType::Function(func) => {
                    let ghost acts = actuals@;
                    let r = crawl_verified_function_call(state, &token, &addr, actuals, &func);
                    proof {
                        assert(callee_step(s1, *state, orig, acts, opt_view(r)));
                        assert(kept_below(&s1, &*state, next_scope(s0.last_scope_addr.n) as int));
                        lemma_kept_join(&s0, &s1, &*state, next_scope(s0.last_scope_addr.n) as int);
                        lemma_grows_trans(&s0, &s1, &*state);
                        if call_fn_free(orig) {
                            lemma_call_report(&*func, acts, token@);
                            let report = args_report(s0.scopes@, s0.vars@, s0.initting_var_opt, arg_seq);
                            let w = overrides(arg_seq);
                            let dc = check_call_spec(&*func, acts, token@).0;
                            assert(diags_view(state.analysis.diagnostics@) =~= diags_view(s0.analysis.diagnostics@)
                                + (w + report.0 + dc));
                            let au = args_uses(s0.scopes@, s0.vars@, s0.initting_var_opt, arg_seq);
                            assert(state.uses() =~= s0.uses().union(au.insert((addr@, token@))));
                            let an = args_nvts(s0.scopes@, s0.vars@, s0.initting_var_opt, arg_seq);
                            assert(state.analysis.non_var_tokens@ =~= s0.analysis.non_var_tokens@ + (an + named_marks(
                                arg_marks(arg_seq),
                                addr,
                                func,
                            )));
                        }
                    }
                    r
                },
                expected => {
                    let ghost acts = actuals@;
                    let mut params: Vec<ParamInfo> = Vec::new();
                    let mut rest2 = actuals;
                    while rest2.len() > 0
                        invariant
                            rest2@ == acts.skip(params@.len() as int),
                            params@.len() <= acts.len(),
                            forall|k: int|
                                0 <= k < params@.len() ==> #[trigger] param_view(&params@[k]) == (ParamV {
                                    name: args_view(acts)[k].name,
                                    typ: args_view(acts)[k].typ,
                                    has_default: false,
                                }),
                            forall|k: int| 0 <= k < acts.len() ==> !(#[trigger] acts[k]).0.2,
                        decreases rest2@.len(),
                    {
                        let ghost rb2 = rest2@;
                        let (p, _) = rest2.remove(0);
                        proof {
                            assert(rest2@ =~= acts.skip(params@.len() as int + 1));
                            assert(p == acts[params@.len() as int].0);
                        }
                        params.push(p);
                    }
                    let fun = Function { params, return_type: OrganicType::Unknown };
                    let ghost fun_params = fun.params@;
                    let shared = Arc::new(fun);
                    let got = OrganicType::Function(shared);
                    let ghost got_view = got@;
                    proof {
                        assert(shared.params@ == fun_params);
                        assert(shared.return_type@ == TypeV::Unknown);
                        assert(got_view == TypeV::Function(params_view(fun_params), Box::new(TypeV::Unknown)));
                    }
                    let ghost expected_view = expected@;
                    push_error(state, token, AnalyzerErrorType::TypeMismatch { expected, got });
                    proof {
                        assert(diags_view(s1.analysis.diagnostics@).is_prefix_of(diags_view(state.analysis.diagnostics@)));
                        assert(s1.analysis.non_var_tokens@.is_prefix_of(state.analysis.non_var_tokens@));
                        lemma_grows_trans(&s0, &s1, &*state);
                        lemma_params_view(fun_params);
                        assert(params_view(fun_params) =~= args_view(acts).map_values(
                            |a: crate::analyzer::call_check::ArgV| ParamV { name: a.name, typ: a.typ, has_default: false },
                        ));
                        assert(got_view == called_as(args_view(acts)));
                        assert(diags_view(state.analysis.diagnostics@) =~= diags_view(s1.analysis.diagnostics@) + seq![
                            error_diag(
                                ErrorV::TypeMismatch { expected: expected_view, got: called_as(args_view(acts)) },
                                orig.func.token@,
                            ),
                        ]);
                        assert(callee_step(s1, *state, orig, acts, None));
                        assert(state.uses() =~= s1.uses());
                        assert(kept_below(&s1, &*state, next_scope(s0.last_scope_addr.n) as int));
                        lemma_kept_join(&s0, &s1, &*state, next_scope(s0.last_scope_addr.n) as int);
                        if call_fn_free(orig) {
                            lemma_params_view(fun_params);
                            assert(params_view(fun_params) =~= args_view(acts).map_values(
                                |a: crate::analyzer::call_check::ArgV| ParamV { name: a.name, typ: a.typ, has_default: false },
                            ));
                            assert(got_view == called_as(args_view(acts)));
                            let report = args_report(s0.scopes@, s0.vars@, s0.initting_var_opt, arg_seq);
                            let w = overrides(arg_seq);
                            assert(diags_view(state.analysis.diagnostics@) =~= diags_view(s0.analysis.diagnostics@)
                                + (w + report.0 + seq![
                                error_diag(
                                    ErrorV::TypeMismatch { expected: expected_view, got: called_as(args_view(acts)) },
                                    orig.func.token@,
                                ),
                            ]));
                            assert(state.uses() == s1.uses());
                            let an = args_nvts(s0.scopes@, s0.vars@, s0.initting_var_opt, arg_seq);
                            assert(state.analysis.non_var_tokens@ =~= s0.analysis.non_var_tokens@ + (an + seq![]));
                        }
                    }
                    None
                },
            }
        },
    }
}

/// The result type `ret` of a function literal `func` whose parameters,
/// once their defaults are analysed, are `params`, and whose body is
/// analysed from the state `st`: unknown for an empty body, else as
/// [`body_trace`] says. `st` has the scopes and the variable being
/// initialised of `before`; where no default holds a function literal, it
/// also has its types and last scope.
pub open spec fn body_result(
    before: AnalysisState,
    st: AnalysisState,
    params: Seq<(Token, ParamInfo)>,
    func: FuncLiteral,
    ret: TypeV,
) -> bool {
    &&& st.scopes@ == before.scopes@
    &&& st.initting_var_opt == before.initting_var_opt
    &&& formals_fn_free(func.formals@) ==> st.vars == before.vars && st.last_scope_addr == before.last_scope_addr
    &&& params.len() == func.formals@.len()
    &&& forall|i: int|
        0 <= i < params.len() ==> (#[trigger] params[i]).1.0@ == func.formals@[i].name.name@ && params[i].1.2
            && params[i].0 == func.formals@[i].name.token
    &&& func.body@.len() == 0 ==> ret == TypeV::Unknown
    &&& func.body@.len() > 0 ==> exists|trace: Seq<AnalysisState>| #[trigger] body_trace(st, params, func.body@, trace, ret)
}

/// The error of the `i`th formal parameter of `fs`: a name among the
/// earlier ones is a duplicate.
pub open spec fn formal_dup(fs: Seq<Formal>, i: int) -> Seq<DiagV> {
    if formal_names(fs.take(i)).contains(fs[i].name.name@) {
        seq![error_diag(ErrorV::DuplicateParameter, fs[i].name.token@)]
    } else {
        seq![]
    }
}

/// How analysing the `i`th formal parameter of `fs` takes `before` to
/// `after`: its error, if any (see [`formal_dup`]), then its default
/// analysed as [`expr_outcome`] says, with the type `t`.
pub open spec fn formal_step(before: AnalysisState, after: AnalysisState, fs: Seq<Formal>, i: int, t: Option<TypeV>) -> bool {
    exists|m: AnalysisState| #[trigger] only_diags_added(before, m, formal_dup(fs, i)) && expr_outcome(m, after, fs[i].default, t)
}

/// The states `states` that analysing the first `params.len()` formal
/// parameters of `fs` in order passes through, each default having the
/// type its parameter in `params` has.
pub open spec fn formals_analysed(states: Seq<AnalysisState>, fs: Seq<Formal>, params: Seq<(Token, ParamInfo)>) -> bool {
    &&& states.len() == params.len() + 1
    &&& params.len() <= fs.len()
    &&& forall|i: int| #![trigger params[i]] 0 <= i < params.len() ==> formal_step(states[i], states[i + 1], fs, i, Some(params[i].1.1@))
}

/// How analysing the body `body` of a function literal with the
/// parameters `params` takes the state `st` to `fin`, `ret` being the
/// body's type: an empty body changes nothing; another is analysed as
/// [`body_trace`] and [`body_end`] say, and its scope then closed.
pub open spec fn body_done(st: AnalysisState, fin: AnalysisState, params: Seq<(Token, ParamInfo)>, body: Seq<Statement>, ret: TypeV) -> bool {
    &&& body.len() == 0 ==> fin == st
    &&& body.len() > 0 ==> exists|trace: Seq<AnalysisState>, mid: AnalysisState, last: AnalysisState|
        #[trigger] body_trace(st, params, body, trace, ret) && #[trigger] body_end(trace.last(), mid, last, body.last(), ret)
            && scope_closed(last, fin)
}

/// The parameter types `ps` of a function literal are those of its
/// analysed parameters `params`, in order.
pub open spec fn params_typed(ps: Seq<ParamV>, params: Seq<(Token, ParamInfo)>) -> bool {
    &&& ps.len() == params.len()
    &&& forall|i: int| 0 <= i < ps.len() ==> (#[trigger] ps[i]).typ == params[i].1.1@
}

/// Analyses a function definition: a parameter named twice is an error;
/// each default value is analysed (the definition has no type where one
/// has none); the body is analysed with the parameters bound, last (see
/// [`body_done`]).  The type has each parameter optional, with its
/// default's type, and the body's type as result.
pub fn crawl_function_def(state: &mut AnalysisState, func: FuncLiteral) -> (r: Option<OrganicType>)
    requires
        old(state).wf(),
    ensures
        kept_below(old(state), final(state), next_scope(old(state).last_scope_addr.n) as int),
        old(state).grows_into(final(state)),
        final(state).scopes@ == old(state).scopes@,
        r is None || opt_view(r)->0 is Function,
        formals_fn_free(func.formals@) ==> ({
            let rep = formals_report(
                old(state).scopes@,
                old(state).vars@,
                old(state).initting_var_opt,
                seq![],
                func.formals@,
            );
            &&& (diags_view(old(state).analysis.diagnostics@) + rep.0).is_prefix_of(
                diags_view(final(state).analysis.diagnostics@),
            )
            &&& (r is None <==> rep.1 is None)
            &&& rep.1 is None ==> diags_view(final(state).analysis.diagnostics@) == diags_view(
                old(state).analysis.diagnostics@,
            ) + rep.0
            &&& r matches Some(t) ==> t@ matches TypeV::Function(ps, _) && ps.len() == func.formals@.len()
                && forall|i: int|
                0 <= i < ps.len() ==> #[trigger] ps[i] == (ParamV {
                    name: func.formals@[i].name.name@,
                    typ: rep.1->0[i],
                    has_default: true,
                })
        }),
        r matches Some(t) ==> (t@ matches TypeV::Function(ps, ret) && exists|
            st: AnalysisState,
            params: Seq<(Token, ParamInfo)>,
        |
            #[trigger] body_result(*old(state), st, params, func, *ret) && body_done(
                st,
                *final(state),
                params,
                func.body@,
                *ret,
            ) && params_typed(ps, params)),
        exists|states: Seq<AnalysisState>, params: Seq<(Token, ParamInfo)>|
            #[trigger] formals_analysed(states, func.formals@, params) && states[0] == *old(state) && match r {
                None => params.len() < func.formals@.len() && formal_step(
                    states.last(),
                    *final(state),
                    func.formals@,
                    params.len() as int,
                    None,
                ),
                Some(t) => params.len() == func.formals@.len() && (t@ matches TypeV::Function(ps, ret) && body_result(
                    *old(state),
                    states.last(),
                    params,
                    func,
                    *ret,
                ) && body_done(states.last(), *final(state), params, func.body@, *ret) && params_typed(ps, params)),
            },
    decreases func, 0int,
{
    let ghost s0 = *state;
    let ghost orig = func;
    let FuncLiteral { name: _, formals, body } = func;
    let ghost formal_seq = formals@;
    let ghost report = |known: Seq<Seq<char>>, fs: Seq<Formal>|
        formals_report(s0.scopes@, s0.vars@, s0.initting_var_opt, known, fs);
    let mut known: Vec<String> = Vec::new();
    let mut params: Vec<(Token, ParamInfo)> = Vec::new();
    let mut rest = formals;
    proof {
        lemma_grows_refl(&s0);
        assert(rest@ =~= formal_seq.skip(0));
        assert(formal_names(formal_seq.take(0)) =~= Seq::<Seq<char>>::empty());
        assert(diags_view(s0.analysis.diagnostics@) + report(seq![], formal_seq).0 =~= diags_view(
            state.analysis.diagnostics@,
        ) + report(formal_names(formal_seq.take(0)), rest@).0);
        if let Some(ts) = report(formal_names(formal_seq.take(0)), rest@).1 {
            assert(Seq::<TypeV>::empty() + ts =~= ts);
        }
    }
    let ghost mut states: Seq<AnalysisState> = seq![s0];
    while rest.len() > 0
        invariant
            s0.grows_into(&*state),
            kept_below(&s0, &*state, next_scope(s0.last_scope_addr.n) as int),
            state.scopes@ == s0.scopes@,
            formals_analysed(states, formal_seq, params@),
            states[0] == s0,
            states.last() == *state,
            rest@ == formal_seq.skip(params@.len() as int),
            params@.len() <= formal_seq.len(),
            formal_seq == orig.formals@,
            orig == func,
            s0 == *old(state),
            report == |known: Seq<Seq<char>>, fs: Seq<Formal>|
                formals_report(s0.scopes@, s0.vars@, s0.initting_var_opt, known, fs),
            forall|x: Seq<char>|
                (exists|k: int| 0 <= k < known@.len() && known@[k]@ == x) <==> #[trigger] formal_names(
                    formal_seq.take(params@.len() as int),
                ).contains(x),
            forall|i: int|
                0 <= i < params@.len() ==> (#[trigger] params@[i]).1.0@ == formal_seq[i].name.name@
                    && params@[i].1.2 && params@[i].0 == formal_seq[i].name.token,
            formals_fn_free(formal_seq) ==> {
                &&& state.vars == s0.vars
                &&& state.last_scope_addr == s0.last_scope_addr
                &&& formals_fn_free(rest@)
                &&& diags_view(s0.analysis.diagnostics@) + report(seq![], formal_seq).0 == diags_view(
                    state.analysis.diagnostics@,
                ) + report(formal_names(formal_seq.take(params@.len() as int)), rest@).0
                &&& report(seq![], formal_seq).1 == match report(
                    formal_names(formal_seq.take(params@.len() as int)),
                    rest@,
                ).1 {
                    Some(ts) => Some(params@.map_values(|p: (Token, ParamInfo)| p.1.1@) + ts),
                    None => None,
                }
            },
        decreases rest@.len(),
    {
        let ghost rb = rest@;
        let ghost k = params@.len() as int;
        let ghost names_k = formal_names(formal_seq.take(k));
        let formal = rest.remove(0);
        proof {
            assert(formal == rb[0]);
            assert(formal == orig.formals@[k]);
            assert(rest@ =~= formal_seq.skip(k + 1));
            assert(rest@ =~= rb.drop_first());
            assert(decreases_to!(orig => orig.formals));
            assert(decreases_to!(orig.formals => orig.formals@));
            assert(decreases_to!(orig.formals@ => orig.formals@[k]));
            assert(decreases_to!(orig.formals@[k] => orig.formals@[k].default));
            assert(formal_names(formal_seq.take(k + 1)) =~= names_k.push(formal.name.name@));
        }
        let Formal { name, default } = formal;
        let ghost si = *state;
        let ghost nm = name.name@;
        let ghost ntok = name.token@;
        let ghost ntk = name.token;
        proof {
            assert(ntk == formal_seq[k].name.token);
        }
        let ghost dup = if names_k.contains(nm) {
            seq![error_diag(ErrorV::DuplicateParameter, ntok)]
        } else {
            seq![]
        };
        if contains_name(&known, &name.name) {
            push_error(state, name.token.clone(), AnalyzerErrorType::DuplicateParameter);
            proof {
                assert(diags_view(si.analysis.diagnostics@).is_prefix_of(diags_view(state.analysis.diagnostics@)));
                assert(si.analysis.non_var_tokens@.is_prefix_of(state.analysis.non_var_tokens@));
                lemma_grows_trans(&s0, &si, &*state);
                assert(names_k.contains(nm));
                assert(diags_view(state.analysis.diagnostics@) =~= diags_view(si.analysis.diagnostics@) + dup);
                assert forall|x: Seq<char>|
                    (exists|j: int| 0 <= j < known@.len() && known@[j]@ == x) <==> #[trigger] formal_names(
                        formal_seq.take(k + 1),
                    ).contains(x) by {
                    lemma_push_contains(names_k, nm, x);
                }
            }
        } else {
            let ghost old_known = known@;
            known.push(name.name.clone());
            proof {
                assert(!names_k.contains(nm));
                assert(diags_view(state.analysis.diagnostics@) =~= diags_view(si.analysis.diagnostics@) + dup);
                assert forall|x: Seq<char>|
                    (exists|j: int| 0 <= j < known@.len() && known@[j]@ == x) <==> #[trigger] formal_names(
                        formal_seq.take(k + 1),
                    ).contains(x) by {
                    lemma_push_contains(names_k, nm, x);
                    if exists|j: int| 0 <= j < known@.len() && known@[j]@ == x {
                        let j = choose|j: int| 0 <= j < known@.len() && known@[j]@ == x;
                        if j < old_known.len() {
                            assert(old_known[j]@ == x);
                        }
                    }
                    if exists|j: int| 0 <= j < old_known.len() && old_known[j]@ == x {
                        let j = choose|j: int| 0 <= j < old_known.len() && old_known[j]@ == x;
                        assert(known@[j]@ == x);
                    }
                    if x == nm {
                        assert(known@[old_known.len() as int]@ == x);
                    }
                }
            }
        }
        let ghost sj = *state;
        let ghost dflt = default;
        proof {
            assert(formal_dup(formal_seq, k) == dup);
            assert(diags_view(sj.analysis.diagnostics@) =~= diags_view(si.analysis.diagnostics@) + dup);
            assert(only_diags_added(si, sj, formal_dup(formal_seq, k)));
            assert(formal_seq[k].default == dflt);
        }
        match crawl_expr(state, default) {
            Some(typ) => {
                proof {
                    lemma_grows_trans(&s0, &sj, &*state);
                    lemma_kept_trans(&s0, &sj, &*state);
                }
                let ghost tv = typ@;
                let ghost old_params = params@;
                params.push((name.token, ParamInfo(name.name, typ, true)));
                proof {
                    assert(formal_step(si, *state, formal_seq, k, Some(tv)));
                    let old_states = states;
                    states = states.push(*state);
                    assert forall|i: int|
                        #![trigger params@[i]]
                        0 <= i < params@.len() implies formal_step(
                        states[i],
                        states[i + 1],
                        formal_seq,
                        i,
                        Some(params@[i].1.1@),
                    ) by {
                        if i < k {
                            assert(states[i] == old_states[i] && states[i + 1] == old_states[i + 1]);
                            assert(params@[i] == old_params[i]);
                        } else {
                            assert(states[i] == si && states[i + 1] == *state);
                            assert(params@[i].1.1@ == tv);
                        }
                    }
                }
                proof {
                    if formals_fn_free(formal_seq) {
                        let d = expr_report(s0.scopes@, s0.vars@, s0.initting_var_opt, dflt).0;
                        let d2 = report(names_k.push(nm), rest@).0;
                        assert(report(names_k, rb).0 == dup + d + d2);
                        assert(diags_view(si.analysis.diagnostics@) + (dup + d + d2) =~= ((diags_view(
                            si.analysis.diagnostics@,
                        ) + dup) + d) + d2);
                        let pts = params@.map_values(|p: (Token, ParamInfo)| p.1.1@);
                        let opts = old_params.map_values(|p: (Token, ParamInfo)| p.1.1@);
                        assert(pts =~= opts.push(tv));
                        if let Some(ts) = report(names_k.push(nm), rest@).1 {
                            assert(opts + (seq![tv] + ts) =~= pts + ts);
                        }
                    }
                    assert forall|i: int|
                        0 <= i < params@.len() implies (#[trigger] params@[i]).1.0@ == formal_seq[i].name.name@
                            && params@[i].1.2 && params@[i].0 == formal_seq[i].name.token by {
                        if i < old_params.len() {
                            assert(params@[i] == old_params[i]);
                        } else {
                            assert(ntk == formal_seq[i].name.token);
                        }
                    }
                }
            },
            None => {
                proof {
                    lemma_grows_trans(&s0, &sj, &*state);
                    lemma_kept_trans(&s0, &sj, &*state);
                    assert(formal_step(si, *state, formal_seq, k, None));
                    assert(states.last() == si);
                    if formals_fn_free(formal_seq) {
                        let d = expr_report(s0.scopes@, s0.vars@, s0.initting_var_opt, dflt).0;
                        assert(report(names_k, rb).0 == dup + d);
                        assert(diags_view(si.analysis.diagnostics@) + (dup + d) =~= (diags_view(
                            si.analysis.diagnostics@,
                        ) + dup) + d);
                    }
                }
                return None;
            },
        }
    }
    let ghost s1 = *state;
    let ghost params0 = params@;
    proof {
        if formals_fn_free(formal_seq) {
            assert(diags_view(s1.analysis.diagnostics@) + seq![] =~= diags_view(s1.analysis.diagnostics@));
            let pts = params0.map_values(|p: (Token, ParamInfo)| p.1.1@);
            assert(pts + seq![] =~= pts);
        }
    }
    let ghost body_seq = body@;
    let return_type = crawl_fn_body(state, body, &params);
    let ghost s_end = *state;
    proof {
        assert(body_done(s1, s_end, params0, body_seq, return_type@));
        lemma_grows_trans(&s0, &s1, &*state);
        lemma_kept_trans(&s0, &s1, &*state);
        assert(body_seq == orig.body@);
        assert(body_result(s0, s1, params0, orig, return_type@));
    }
    let mut infos: Vec<ParamInfo> = Vec::new();
    let mut rest2 = params;
    while rest2.len() > 0
        invariant
            rest2@ == params0.skip(infos@.len() as int),
            infos@.len() <= params0.len(),
            forall|i: int| 0 <= i < infos@.len() ==> #[trigger] infos@[i] == params0[i].1,
        decreases rest2@.len(),
    {
        let ghost rb2 = rest2@;
        let (_, p) = rest2.remove(0);
        proof {
            assert(rest2@ =~= params0.skip(infos@.len() as int + 1));
            assert(p == params0[infos@.len() as int].1);
        }
        let ghost old_infos = infos@;
        infos.push(p);
        proof {
            assert forall|i: int| 0 <= i < infos@.len() implies #[trigger] infos@[i] == params0[i].1 by {
                if i < old_infos.len() {
                    assert(infos@[i] == old_infos[i]);
                }
            }
        }
    }
    let fun = Function { params: infos, return_type };
    let ghost fun_params = fun.params@;
    let shared = Arc::new(fun);
    let r = OrganicType::Function(shared);
    proof {
        assert(shared.params@ == fun_params);
        lemma_params_view(fun_params);
        assert(fun_params.len() == formal_seq.len());
        assert(*state == s_end);
        assert(r@ matches TypeV::Function(ps, _) && ps == params_view(fun_params));
        assert forall|i: int| 0 <= i < params_view(fun_params).len() implies (#[trigger] params_view(fun_params)[i]).typ
            == params0[i].1.1@ by {
            assert(fun_params[i] == params0[i].1);
        }
        assert(params_typed(params_view(fun_params), params0));
        assert(body_seq == orig.body@);
        assert(states.last() == s1);
        assert(formals_analysed(states, formal_seq, params0));
        if formals_fn_free(formal_seq) {
            let pts = params0.map_values(|p: (Token, ParamInfo)| p.1.1@);
            assert(r@ matches TypeV::Function(ps, _) && ps == params_view(fun_params));
            assert forall|i: int| 0 <= i < fun_params.len() implies #[trigger] params_view(fun_params)[i] == (ParamV {
                name: formal_seq[i].name.name@,
                typ: pts[i],
                has_default: true,
            }) by {
                assert(fun_params[i] == params0[i].1);
            }
        }
    }
    Some(r)
}

/// `bindings` bind exactly the names of `m`, each to its name's address in
/// the scope `n`; `after` types those addresses as `m` says, and every
/// other address as `before` does.
pub open spec fn binds_params(
    bindings: Seq<(String, NamedVarAddress)>,
    before: AnalysisState,
    after: AnalysisState,
    m: Map<Seq<char>, TypeV>,
    n: u64,
) -> bool {
    &&& forall|name: Seq<char>| #[trigger] table_get(bindings, name) is Some <==> m.contains_key(name)
    &&& forall|name: Seq<char>| #[trigger] table_get(bindings, name) matches Some(a) ==> a@ == (name, n)
    &&& forall|name: Seq<char>|
        #[trigger] m.contains_key(name) ==> (table_get(after.vars@, (name, n)) matches Some(t) && t@ == m[name])
    &&& forall|q: (Seq<char>, u64)|
        !(q.1 == n && m.contains_key(q.0)) ==> #[trigger] table_get(after.vars@, q) == table_get(before.vars@, q)
}

/// The names of the parameters `params` with their types.
pub open spec fn param_entries(params: Seq<(Token, ParamInfo)>) -> Seq<(Seq<char>, TypeV)> {
    params.map_values(|p: (Token, ParamInfo)| (p.1.0@, p.1.1@))
}

/// Whether no parameter after the `i`th of the first `k` of `params` has
/// its name.
pub open spec fn last_of_name(params: Seq<(Token, ParamInfo)>, i: int, k: int) -> bool {
    forall|j: int| i < j < k ==> (#[trigger] params[j]).1.0@ != params[i].1.0@
}

/// What `st` knows of the `i`th parameter of `params`, bound in the scope
/// `n`: it is highlighted as a parameter, with its type and token, and is
/// used at its own token.
pub open spec fn param_known(st: AnalysisState, params: Seq<(Token, ParamInfo)>, i: int, n: u64) -> bool {
    let a = (params[i].1.0@, n);
    &&& table_get(st.analysis.defn_infos@, a) matches Some(info) && info.hl_type == HighlightingType::Parameter
        && info.organic_type@ == params[i].1.1@ && info.token == params[i].0
    &&& st.uses().contains((a, params[i].0@))
}

/// What `st` knows of the parameters `params`, bound in the scope `n`, that
/// no later parameter and no statement of `body` names again (see
/// [`param_known`]).
pub open spec fn params_known_in(st: AnalysisState, params: Seq<(Token, ParamInfo)>, n: u64, body: Seq<Statement>) -> bool {
    forall|i: int|
        0 <= i < params.len() && last_of_name(params, i, params.len() as int) && !declares(body, params[i].1.0@)
            ==> #[trigger] param_known(st, params, i, n)
}

/// What is known of those parameters stays known where what is below a
/// scope past theirs is kept, but for the address of a name that `body`
/// declares.
pub proof fn lemma_params_known_kept(
    si: &AnalysisState,
    st: &AnalysisState,
    params: Seq<(Token, ParamInfo)>,
    n: u64,
    m: int,
    x: (Seq<char>, u64),
    body: Seq<Statement>,
)
    requires
        params_known_in(*si, params, n, body),
        n < m,
        kept_below(si, st, m) || (kept_below_but(si, st, m, x) && declares(body, x.0)),
    ensures
        params_known_in(*st, params, n, body),
{
    assert forall|i: int|
        0 <= i < params.len() && last_of_name(params, i, params.len() as int) && !declares(body, params[i].1.0@)
            implies #[trigger] param_known(*st, params, i, n) by {
        let a = (params[i].1.0@, n);
        assert(param_known(*si, params, i, n));
        assert(table_get(st.analysis.defn_infos@, a) == table_get(si.analysis.defn_infos@, a));
        assert(si.uses().contains((a, params[i].0@)));
    }
}

/// A declaration among `stmts` is declared by a statement of them.
pub proof fn lemma_body_decls_declared(stmts: Seq<Statement>, k: int)
    requires
        0 <= k < body_decls(stmts).len(),
    ensures
        declares(stmts, body_decls(stmts)[k].name.name@),
{
    let nm = body_decls(stmts)[k].name.name@;
    if !declares(stmts, nm) {
        lemma_body_decls_names(stmts, nm);
        assert(body_decls(stmts)[k].name.name@ != nm);
    }
}

/// Binds each parameter in a new scope with address `address`: its
/// definition, what is known of it, its usage at its own token, and its
/// type.
fn bind_params(state: &mut AnalysisState, params: &Vec<(Token, ParamInfo)>, address: ScopeAddress) -> (bindings: Vec<(String, NamedVarAddress)>)
    requires
        old(state).wf(),
        address.n >= old(state).last_scope_addr.n,
    ensures
        kept_below(old(state), final(state), address.n as int),
        old(state).grows_into(final(state)),
        final(state).scopes == old(state).scopes,
        final(state).analysis.diagnostics == old(state).analysis.diagnostics,
        final(state).analysis.non_var_tokens == old(state).analysis.non_var_tokens,
        final(state).last_scope_addr == old(state).last_scope_addr,
        final(state).initting_var_opt == old(state).initting_var_opt,
        keys_unique(bindings@),
        forall|q: Seq<char>| #[trigger] table_get(bindings@, q) is Some ==> key_index(final(state).vars@, table_get(bindings@, q)->0@) >= 0,
        binds_params(bindings@, *old(state), *final(state), bind_all(Map::empty(), param_entries(params@)), address.n),
        forall|i: int|
            0 <= i < params@.len() && last_of_name(params@, i, params@.len() as int) ==> #[trigger] param_known(
                *final(state),
                params@,
                i,
                address.n,
            ),
{
    let ghost s0 = *state;
    let ghost pe = param_entries(params@);
    let mut bindings: Vec<(String, NamedVarAddress)> = Vec::new();
    let mut i: usize = 0;
    proof {
        lemma_grows_refl(&s0);
        assert(pe.take(0) =~= Seq::<(Seq<char>, TypeV)>::empty());
    }
    while i < params.len()
        invariant
            s0.grows_into(&*state),
            state.scopes == s0.scopes,
            state.analysis.diagnostics == s0.analysis.diagnostics,
            state.analysis.non_var_tokens == s0.analysis.non_var_tokens,
            state.initting_var_opt == s0.initting_var_opt,
            state.last_scope_addr == s0.last_scope_addr,
            address.n >= s0.last_scope_addr.n,
            kept_below(&s0, &*state, address.n as int),
            i <= params.len(),
            keys_unique(bindings@),
            forall|q: Seq<char>| #[trigger] table_get(bindings@, q) is Some ==> key_index(state.vars@, table_get(bindings@, q)->0@) >= 0,
            pe == param_entries(params@),
            binds_params(bindings@, s0, *state, bind_all(Map::empty(), pe.take(i as int)), address.n),
            forall|j: int|
                0 <= j < i && last_of_name(params@, j, i as int) ==> #[trigger] param_known(*state, params@, j, address.n),
        decreases params.len() - i,
    {
        let ghost si = *state;
        let ghost m_i = bind_all(Map::empty(), pe.take(i as int));
        let (token, ParamInfo(name, typ, _)) = &params[i];
        let my_addr = NamedVarAddress { name: name.clone(), scope_addr: address };
        table_insert(
            &mut state.analysis.defn_infos,
            my_addr.clone(),
            DefnInfo { hl_type: HighlightingType::Parameter, organic_type: clone_type(typ), token: token.clone() },
        );
        table_insert(&mut state.analysis.definitions, my_addr.clone(), TermDefn::UserDefined { token: token.clone() });
        let mut first: Vec<Token> = Vec::new();
        first.push(token.clone());
        table_insert(&mut state.analysis.usages, my_addr.clone(), first);
        table_insert(&mut state.vars, my_addr.clone(), clone_type(typ));
        let ghost ma = my_addr@;
        let ghost old_b = bindings@;
        table_insert(&mut bindings, name.clone(), my_addr);
        proof {
            assert(params@[i as int].1.0@ == name@ && params@[i as int].0 == *token && params@[i as int].1.1 == *typ);
            assert forall|j: int|
                0 <= j < i + 1 && last_of_name(params@, j, i + 1) implies #[trigger] param_known(
                *state,
                params@,
                j,
                address.n,
            ) by {
                let aj = (params@[j].1.0@, address.n);
                if j == i {
                    assert(aj == ma);
                    assert(state.uses().contains((aj, params@[j].0@))) by {
                        assert(table_get(state.analysis.usages@, ma) matches Some(ts) && ts@[0]@ == token@);
                    }
                } else {
                    assert(params@[i as int].1.0@ != params@[j].1.0@);
                    assert(last_of_name(params@, j, i as int));
                    assert(param_known(si, params@, j, address.n));
                    assert(aj != ma);
                    assert(table_get(state.analysis.defn_infos@, aj) == table_get(si.analysis.defn_infos@, aj));
                    assert(table_get(state.analysis.usages@, aj) == table_get(si.analysis.usages@, aj));
                    assert(si.uses().contains((aj, params@[j].0@)));
                    assert(state.uses().contains((aj, params@[j].0@)));
                }
            }
            crate::analyzer::builtins::lemma_bind_all_step(Map::empty(), pe, i as int);
            assert(pe[i as int] == (name@, typ@));
            let m2 = m_i.insert(name@, typ@);
            assert(binds_params(bindings@, s0, *state, m2, address.n)) by {
                assert forall|q: (Seq<char>, u64)| !(q.1 == address.n && m2.contains_key(q.0)) implies #[trigger] table_get(
                    state.vars@,
                    q,
                ) == table_get(s0.vars@, q) by {
                    assert(q != ma);
                    assert(table_get(state.vars@, q) == table_get(si.vars@, q));
                }
                assert forall|nm: Seq<char>| #[trigger] m2.contains_key(nm) implies (table_get(state.vars@, (nm, address.n)) matches Some(
                    t,
                ) && t@ == m2[nm]) by {
                    if nm != name@ {
                        assert((nm, address.n) != ma);
                        assert(table_get(state.vars@, (nm, address.n)) == table_get(si.vars@, (nm, address.n)));
                    }
                }
                assert forall|nm: Seq<char>| #[trigger] table_get(bindings@, nm) is Some <==> m2.contains_key(nm) by {
                    if nm != name@ {
                        assert(table_get(bindings@, nm) == table_get(old_b, nm));
                    }
                }
                assert forall|nm: Seq<char>| #[trigger] table_get(bindings@, nm) is Some implies table_get(
                    bindings@,
                    nm,
                )->0@ == (nm, address.n) by {
                    if nm != name@ {
                        assert(table_get(bindings@, nm) == table_get(old_b, nm));
                    }
                }
            }
            crate::common::table::lemma_key_index_bounds(state.vars@, ma);
            assert forall|q: Seq<char>| #[trigger] table_get(bindings@, q) is Some implies key_index(state.vars@, table_get(bindings@, q)->0@) >= 0 by {
                if q != name@ {
                    assert(table_get(old_b, q) is Some);
                }
            }
            lemma_wf_frame(&si, &*state);
            assert(diags_view(si.analysis.diagnostics@).is_prefix_of(diags_view(state.analysis.diagnostics@)));
            assert(si.analysis.non_var_tokens@.is_prefix_of(state.analysis.non_var_tokens@));
            assert forall|q: (Seq<char>, u64)| q.1 < address.n implies #[trigger] table_get(
                state.analysis.definitions@,
                q,
            ) == table_get(s0.analysis.definitions@, q) by {
                assert(q != ma);
                assert(table_get(state.analysis.definitions@, q) == table_get(si.analysis.definitions@, q));
            }
            lemma_grows_trans(&s0, &si, &*state);
        }
        i = i + 1;
    }
    proof {
        assert(pe.take(i as int) =~= pe);
    }
    bindings
}

/// A warning at each call among `stmts`, in order: in a function body only
/// the last statement gives the result, so an earlier call is of no use.
pub open spec fn intermediate_calls(stmts: Seq<Statement>) -> Seq<DiagV>
    decreases stmts.len(),
{
    if stmts.len() == 0 {
        seq![]
    } else {
        intermediate_calls(stmts.drop_last()) + match stmts.last() {
            Statement::FunctionCall(fc) => seq![
                warning_diag(AnalyzerWarningType::IntermediateCallInFnDef, fc.func.token@),
            ],
            Statement::VariableDecl(_) => seq![],
        }
    }
}

/// The declarations among `stmts`, in order.
pub open spec fn body_decls(stmts: Seq<Statement>) -> Seq<VarDecl>
    decreases stmts.len(),
{
    if stmts.len() == 0 {
        seq![]
    } else {
        body_decls(stmts.drop_last()) + match stmts.last() {
            Statement::VariableDecl(d) => seq![d],
            Statement::FunctionCall(_) => seq![],
        }
    }
}

/// Whether `stmt` declares a variable named `nm`.
pub open spec fn declares_name(stmt: Statement, nm: Seq<char>) -> bool {
    stmt matches Statement::VariableDecl(vd) && vd.name.name@ == nm
}

/// Whether a statement of `stmts` declares a variable named `nm`.
pub open spec fn declares(stmts: Seq<Statement>, nm: Seq<char>) -> bool {
    exists|i: int| 0 <= i < stmts.len() && declares_name(#[trigger] stmts[i], nm)
}

/// No declaration among `stmts` is named `nm` where no statement declares it.
pub proof fn lemma_body_decls_names(stmts: Seq<Statement>, nm: Seq<char>)
    requires
        !declares(stmts, nm),
    ensures
        forall|k: int| 0 <= k < body_decls(stmts).len() ==> (#[trigger] body_decls(stmts)[k]).name.name@ != nm,
    decreases stmts.len(),
{
    if stmts.len() > 0 {
        let init = stmts.drop_last();
        assert(!declares(init, nm)) by {
            if declares(init, nm) {
                let i = choose|i: int| 0 <= i < init.len() && declares_name(#[trigger] init[i], nm);
                assert(stmts[i] == init[i]);
            }
        }
        lemma_body_decls_names(init, nm);
        let tail: Seq<VarDecl> = match stmts.last() {
            Statement::VariableDecl(d) => seq![d],
            Statement::FunctionCall(_) => seq![],
        };
        assert(body_decls(stmts) == body_decls(init) + tail);
        assert forall|k: int| 0 <= k < body_decls(stmts).len() implies (#[trigger] body_decls(stmts)[k]).name.name@
            != nm by {
            if k < body_decls(init).len() {
                assert(body_decls(stmts)[k] == body_decls(init)[k]);
            } else {
                assert(stmts[stmts.len() - 1] == stmts.last());
            }
        }
    }
}

/// The address of the scope a function body opens after the last one
/// opened at `n`: the next, or `n` itself at the end of the numbers.
pub open spec fn next_scope(n: u64) -> u64 {
    if n < u64::MAX {
        (n + 1) as u64
    } else {
        n
    }
}

/// `after` is `before` with a new innermost scope at address `n`, opened
/// last, that binds the parameters `params` (each name to its address in
/// that scope, typed as the last parameter of that name); the variable
/// being initialised is the same.
pub open spec fn body_scope(before: AnalysisState, after: AnalysisState, params: Seq<(Token, ParamInfo)>, n: u64) -> bool {
    &&& after.scopes@.len() == before.scopes@.len() + 1
    &&& after.scopes@.drop_last() == before.scopes@
    &&& after.scopes@.last().address.n == n
    &&& after.last_scope_addr.n == n
    &&& after.initting_var_opt == before.initting_var_opt
    &&& binds_params(
        after.scopes@.last().env.bindings@,
        before,
        after,
        bind_all(Map::empty(), param_entries(params)),
        n,
    )
}

/// `trace` is the states analysing the non-empty function body `body` with
/// the parameters `params` passes through from `before`: the body's scope
/// opened, then each declaration before the last statement analysed in
/// turn (as [`decl_step`] says). Where the last statement is a call without
/// function literals, `r` is the type it has in the last of those states
/// (unknown where it has none).
pub open spec fn body_trace(
    before: AnalysisState,
    params: Seq<(Token, ParamInfo)>,
    body: Seq<Statement>,
    trace: Seq<AnalysisState>,
    r: TypeV,
) -> bool {
    let decls = body_decls(body.drop_last());
    &&& trace.len() == decls.len() + 1
    &&& body_scope(before, trace[0], params, next_scope(before.last_scope_addr.n))
    &&& forall|i: int| #![trigger decls[i]] 0 <= i < decls.len() ==> decl_step(trace[i], trace[i + 1], decls[i])
    &&& body.last() matches Statement::FunctionCall(fc) ==> (call_fn_free(*fc) ==> r == match call_report_of(
        trace.last().scopes@,
        trace.last().vars@,
        trace.last().initting_var_opt,
        *fc,
    ).1 {
        Some(t) => t,
        None => TypeV::Unknown,
    })
}

/// `after` is `before` with only the diagnostic `d` added at the end.
pub open spec fn only_diag_pushed(before: AnalysisState, after: AnalysisState, d: DiagV) -> bool {
    &&& diags_view(after.analysis.diagnostics@) == diags_view(before.analysis.diagnostics@).push(d)
    &&& after.analysis.definitions == before.analysis.definitions
    &&& after.analysis.defn_infos == before.analysis.defn_infos
    &&& after.analysis.non_var_tokens == before.analysis.non_var_tokens
    &&& after.analysis.usages == before.analysis.usages
    &&& after.initting_var_opt == before.initting_var_opt
    &&& after.last_scope_addr == before.last_scope_addr
    &&& after.scopes == before.scopes
    &&& after.vars == before.vars
}

/// What analysing the call `fc` makes of the state `before` (as
/// [`crawl_function_call`] says): `after` grows from it with the same
/// scopes; a call of an unbound name adds only its error; a call without
/// function literals adds the report, uses and tokens that
/// [`call_report_of`] and its companions give.
pub open spec fn call_step(before: AnalysisState, after: AnalysisState, fc: FuncCall) -> bool {
    &&& before.grows_into(&after)
    &&& after.scopes@ == before.scopes@
    &&& resolve(before.scopes@, fc.func.name@) is None ==> only_diag_pushed(
        before,
        after,
        error_diag(ErrorV::NoSuchFn, fc.func.token@),
    )
    &&& call_fn_free(fc) ==> diags_view(after.analysis.diagnostics@) == diags_view(before.analysis.diagnostics@)
        + call_report_of(before.scopes@, before.vars@, before.initting_var_opt, fc).0
    &&& call_fn_free(fc) ==> after.vars == before.vars
    &&& call_fn_free(fc) ==> after.analysis.definitions == before.analysis.definitions
    &&& call_fn_free(fc) ==> after.analysis.defn_infos == before.analysis.defn_infos
    &&& call_fn_free(fc) ==> after.last_scope_addr == before.last_scope_addr
    &&& call_fn_free(fc) ==> after.uses() == before.uses().union(
        call_uses(before.scopes@, before.vars@, before.initting_var_opt, fc),
    )
    &&& call_fn_free(fc) ==> after.analysis.non_var_tokens@ == before.analysis.non_var_tokens@ + call_nvts(
        before.scopes@,
        before.vars@,
        before.initting_var_opt,
        fc,
    )
}

/// How the last statement of a function body takes the state `before` (the
/// last of a [`body_trace`]) to `after`, through `mid`: a call is analysed
/// (as [`call_step`] says), and a call of an unbound name gives the body an
/// unknown type; a declaration is first warned about as a body that does
/// nothing (giving `mid`), then analysed as [`decl_step`] says.
pub open spec fn body_end(before: AnalysisState, mid: AnalysisState, after: AnalysisState, last: Statement, r: TypeV) -> bool {
    match last {
        Statement::FunctionCall(fc) => {
            &&& call_step(before, after, *fc)
            &&& resolve(before.scopes@, fc.func.name@) is None ==> r == TypeV::Unknown
        },
        Statement::VariableDecl(vd) => {
            &&& only_diag_pushed(before, mid, warning_diag(AnalyzerWarningType::UselessFnBody, vd.name.token@))
            &&& decl_step(mid, after, vd)
        },
    }
}

/// `after` is `before` with its innermost scope (the body's) closed.
pub open spec fn scope_closed(before: AnalysisState, after: AnalysisState) -> bool {
    &&& after.scopes@ == before.scopes@.drop_last()
    &&& after.analysis == before.analysis
    &&& after.initting_var_opt == before.initting_var_opt
    &&& after.last_scope_addr == before.last_scope_addr
    &&& after.vars == before.vars
}

/// Analyses a function body: calls before the last statement are warned
/// about (they do nothing); the parameters are bound in a new scope; the
/// declarations are analysed in order; the last statement gives the
/// body's type when it is a call, and is warned about otherwise; then the
/// body's scope is closed (see [`body_trace`], [`body_end`] and
/// [`scope_closed`]). An empty body changes nothing and has no type. Only
/// addresses of the new scope and later ones are defined or typed anew, and
/// a parameter that no statement of the body declares again keeps its type
/// at its address in the new scope, is known as a parameter there and is
/// used at its own token.
#[verifier::rlimit(80)]
pub fn crawl_fn_body(state: &mut AnalysisState, body: Vec<Statement>, params: &Vec<(Token, ParamInfo)>) -> (r: OrganicType)
    requires
        old(state).wf(),
    ensures
        kept_below(old(state), final(state), next_scope(old(state).last_scope_addr.n) as int),
        old(state).grows_into(final(state)),
        final(state).scopes@ == old(state).scopes@,
        body@.len() == 0 ==> r@ == TypeV::Unknown,
        body@.len() > 0 && body@.last() is VariableDecl ==> r@ == TypeV::Unknown,
        body@.len() > 0 ==> (diags_view(old(state).analysis.diagnostics@) + intermediate_calls(
            body@.drop_last(),
        )).is_prefix_of(diags_view(final(state).analysis.diagnostics@)),
        body@.len() == 0 ==> *final(state) == *old(state),
        body@.len() > 0 ==> final(state).last_scope_addr.n >= next_scope(old(state).last_scope_addr.n),
        body@.len() > 0 && old(state).last_scope_addr.n < u64::MAX - 1 ==> forall|nm: Seq<char>|
            #[trigger] bind_all(Map::empty(), param_entries(params@)).contains_key(nm) && !declares(body@, nm) ==> (
            table_get(final(state).vars@, (nm, next_scope(old(state).last_scope_addr.n))) matches Some(t) && t@
                == bind_all(Map::empty(), param_entries(params@))[nm]),
        body@.len() > 0 && old(state).last_scope_addr.n < u64::MAX - 1 ==> params_known_in(
            *final(state),
            params@,
            next_scope(old(state).last_scope_addr.n),
            body@,
        ),
        body@.len() > 0 ==> exists|trace: Seq<AnalysisState>, mid: AnalysisState, last: AnalysisState|
            #[trigger] body_trace(*old(state), params@, body@, trace, r@) && #[trigger] body_end(
                trace.last(),
                mid,
                last,
                body@.last(),
                r@,
            ) && scope_closed(last, *final(state)),
    decreases body, 0int,
{
    let ghost s0 = *state;
    let ghost orig = body;
    proof {
        lemma_grows_refl(&s0);
    }
    let mut body_mut = body;
    if body_mut.len() == 0 {
        proof {
            assert(*state == s0);
        }
        return OrganicType::Unknown;
    }
    let last = body_mut.pop().unwrap();
    proof {
        assert(last == orig@[orig@.len() - 1]);
        assert(decreases_to!(orig => orig@));
        assert(decreases_to!(orig@ => orig@[orig@.len() - 1]));
    }
    let ghost body_seq = body_mut@;
    proof {
        assert(body_seq =~= orig@.drop_last());
    }
    let mut decls: Vec<VarDecl> = Vec::new();
    let mut rest = body_mut;
    let ghost mut taken: int = 0;
    proof {
        assert(rest@ =~= body_seq.skip(0));
        assert(body_seq.take(0) =~= Seq::<Statement>::empty());
        assert(decls@ =~= body_decls(body_seq.take(0)));
        assert(diags_view(state.analysis.diagnostics@) =~= diags_view(s0.analysis.diagnostics@)
            + intermediate_calls(body_seq.take(0)));
    }
    while rest.len() > 0
        invariant
            s0.grows_into(&*state),
            diags_view(state.analysis.diagnostics@) == diags_view(s0.analysis.diagnostics@)
                + intermediate_calls(body_seq.take(taken)),
            state.scopes@ == s0.scopes@,
            0 <= taken <= body_seq.len(),
            taken + rest@.len() == body_seq.len(),
            body_seq.len() + 1 == orig@.len(),
            rest@ == body_seq.skip(taken),
            body_seq == orig@.drop_last(),
            forall|m: int| 0 <= m < decls@.len() ==> decreases_to!(orig => #[trigger] decls@[m]),
            orig == body,
            decls@ == body_decls(body_seq.take(taken)),
            state.vars == s0.vars,
            state.last_scope_addr == s0.last_scope_addr,
            state.analysis.definitions == s0.analysis.definitions,
            state.analysis.defn_infos == s0.analysis.defn_infos,
            state.analysis.usages == s0.analysis.usages,
        decreases rest@.len(),
    {
        let ghost rb = rest@;
        let stmt = rest.remove(0);
        proof {
            assert(stmt == rb[0]);
            assert(stmt == body_seq[taken]);
            assert(stmt == orig@[taken]);
            assert(rest@ =~= body_seq.skip(taken + 1));
            assert(decreases_to!(orig => orig@));
            assert(decreases_to!(orig@ => orig@[taken]));
            if stmt is VariableDecl {
                assert(decreases_to!(orig@[taken] => stmt->VariableDecl_0));
            }
        }
        proof {
            assert(body_seq.take(taken + 1).drop_last() =~= body_seq.take(taken));
            assert(body_seq.take(taken + 1).last() == stmt);
            taken = taken + 1;
        }
        let ghost si = *state;
        match stmt {
            Statement::FunctionCall(fc) => {
                push_warning(state, fc.func.token.clone(), AnalyzerWarningType::IntermediateCallInFnDef);
                proof {
                    assert(decls@ =~= body_decls(body_seq.take(taken - 1)) + Seq::<VarDecl>::empty());
                    assert(diags_view(state.analysis.diagnostics@) =~= diags_view(s0.analysis.diagnostics@)
                        + intermediate_calls(body_seq.take(taken)));
                    assert(diags_view(si.analysis.diagnostics@).is_prefix_of(diags_view(state.analysis.diagnostics@)));
                    assert(si.analysis.non_var_tokens@.is_prefix_of(state.analysis.non_var_tokens@));
                    lemma_grows_trans(&s0, &si, &*state);
                }
            },
            Statement::VariableDecl(d) => {
                let ghost old_decls = decls@;
                let ghost dv = d;
                decls.push(d);
                proof {
                    assert(decls@ =~= old_decls + seq![dv]);
                    assert(diags_view(state.analysis.diagnostics@) =~= diags_view(s0.analysis.diagnostics@)
                        + intermediate_calls(body_seq.take(taken)));
                    assert forall|m: int| 0 <= m < decls@.len() implies decreases_to!(orig => #[trigger] decls@[m]) by {
                        if m < old_decls.len() {
                            assert(decls@[m] == old_decls[m]);
                        }
                    }
                }
            },
        }
    }
    let n = if state.last_scope_addr.n < u64::MAX {
        state.last_scope_addr.n + 1
    } else {
        state.last_scope_addr.n
    };
    let address = ScopeAddress { n };
    let ghost s1 = *state;
    proof {
        assert(body_seq.take(taken) =~= body_seq);
    }
    let bindings = bind_params(state, params, address);
    let ghost s2 = *state;
    let ghost bv = bindings@;
    state.scopes.push(Scope { env: Env { bindings }, address });
    state.last_scope_addr = address;
    proof {
        assert forall|i: int, q: Seq<char>|
            0 <= i < state.scopes@.len() && (#[trigger] table_get(
                state.scopes@[i].env.bindings@,
                q,
            )) is Some implies key_index(
            state.vars@,
            table_get(state.scopes@[i].env.bindings@, q)->0@,
        ) >= 0 by {
            if i < state.scopes@.len() - 1 {
                assert(state.scopes@[i] == s2.scopes@[i]);
                assert(table_get(s2.scopes@[i].env.bindings@, q) is Some);
            } else {
                assert(state.scopes@[i].env.bindings@ == bv);
                assert(table_get(bv, q) is Some);
            }
        }
        assert(scopes_wf(state.scopes@)) by {
            assert(keys_unique(bv));
            assert forall|i: int| 0 <= i < state.scopes@.len() implies keys_unique(#[trigger] state.scopes@[i].env.bindings@) by {
                if i < state.scopes@.len() - 1 {
                    assert(state.scopes@[i] == s2.scopes@[i]);
                    assert(scopes_wf(s2.scopes@));
                    assert(keys_unique(s2.scopes@[i].env.bindings@));
                } else {
                    assert(state.scopes@[i].env.bindings@ == bv);
                }
            }
        }
        assert(state.wf());
        lemma_grows_trans(&s0, &s1, &s2);
        assert(diags_view(s2.analysis.diagnostics@).is_prefix_of(diags_view(state.analysis.diagnostics@)));
        assert(s2.analysis.non_var_tokens@.is_prefix_of(state.analysis.non_var_tokens@));
        lemma_grows_trans(&s0, &s2, &*state);
        lemma_grows_trans(&s1, &s2, &*state);
    }
    let ghost s3 = *state;
    let ghost decls0 = decls@;
    proof {
        assert(s1.vars == s0.vars);
        assert(s3.vars == s2.vars);
        assert(s3.scopes@.last().env.bindings@ == bv);
        assert(s3.scopes@.drop_last() =~= s0.scopes@);
        assert(body_scope(s0, s3, params@, next_scope(s0.last_scope_addr.n)));
        assert(decls0 == body_decls(orig@.drop_last()));
        assert(s3.uses() =~= s2.uses());
        assert(params_known_in(s3, params@, s3.last_scope_addr.n, orig@)) by {
            assert forall|i: int|
                0 <= i < params@.len() && last_of_name(params@, i, params@.len() as int) && !declares(orig@, params@[i].1.0@)
                    implies #[trigger] param_known(s3, params@, i, s3.last_scope_addr.n) by {
                assert(param_known(s2, params@, i, address.n));
            }
        }
    }
    let mut rest_decls = decls;
    let ghost mut trace: Seq<AnalysisState> = seq![s3];
    proof {
        assert(rest_decls@ =~= decls0.skip(0));
    }
    while rest_decls.len() > 0
        invariant
            s0.grows_into(&*state),
            s1.grows_into(&*state),
            state.scopes@.len() == s0.scopes@.len() + 1,
            state.scopes@.drop_last() == s0.scopes@,
            forall|m: int| 0 <= m < rest_decls@.len() ==> decreases_to!(orig => #[trigger] rest_decls@[m]),
            orig == body,
            1 <= trace.len() <= decls0.len() + 1,
            rest_decls@ == decls0.skip(trace.len() - 1),
            trace[0] == s3,
            trace.last() == *state,
            orig@.len() >= 1,
            decls0 == body_decls(orig@.drop_last()),
            s3.last_scope_addr.n == next_scope(s0.last_scope_addr.n),
            state.last_scope_addr.n >= s3.last_scope_addr.n,
            kept_below(&s3, &*state, s3.last_scope_addr.n as int),
            s0.last_scope_addr.n < u64::MAX - 1 ==> params_known_in(*state, params@, s3.last_scope_addr.n, orig@),
            s0.last_scope_addr.n < u64::MAX - 1 ==> forall|nm: Seq<char>|
                #[trigger] bind_all(Map::empty(), param_entries(params@)).contains_key(nm) && !declares(orig@, nm) ==> table_get(
                    state.vars@,
                    (nm, s3.last_scope_addr.n),
                ) == table_get(s3.vars@, (nm, s3.last_scope_addr.n)),
            forall|i: int| #![trigger decls0[i]] 0 <= i < trace.len() - 1 ==> decl_step(trace[i], trace[i + 1], decls0[i]),
        decreases rest_decls@.len(),
    {
        let ghost before = rest_decls@;
        let ghost k = trace.len() - 1;
        let decl = rest_decls.remove(0);
        proof {
            assert(decl == before[0]);
            assert(decl == decls0[k]);
            assert(rest_decls@ =~= decls0.skip(k + 1));
            assert forall|m: int| 0 <= m < rest_decls@.len() implies decreases_to!(orig => #[trigger] rest_decls@[m]) by {
                assert(rest_decls@[m] == before[m + 1]);
            }
        }
        let ghost si = *state;
        let ghost dname = decl.name.name@;
        crawl_var_decl(state, decl);
        proof {
            if s0.last_scope_addr.n < u64::MAX - 1 {
                assert forall|nm: Seq<char>|
                    #[trigger] bind_all(Map::empty(), param_entries(params@)).contains_key(nm) && !declares(orig@, nm)
                        implies table_get(state.vars@, (nm, s3.last_scope_addr.n)) == table_get(
                    s3.vars@,
                    (nm, s3.last_scope_addr.n),
                ) by {
                    assert(!declares(orig@.drop_last(), nm)) by {
                        if declares(orig@.drop_last(), nm) {
                            let i = choose|i: int| 0 <= i < orig@.drop_last().len() && declares_name(
                                #[trigger] orig@.drop_last()[i],
                                nm,
                            );
                            assert(orig@[i] == orig@.drop_last()[i]);
                        }
                    }
                    lemma_body_decls_names(orig@.drop_last(), nm);
                    assert(decls0[k].name.name@ == dname);
                    assert(dname != nm);
                    let q = (nm, s3.last_scope_addr.n);
                    assert(table_get(state.vars@, q) == table_get(si.vars@, q));
                }
                lemma_body_decls_declared(orig@.drop_last(), k);
                assert(decls0[k].name.name@ == dname);
                assert(declares(orig@, dname)) by {
                    let j = choose|j: int| 0 <= j < orig@.drop_last().len() && declares_name(
                        #[trigger] orig@.drop_last()[j],
                        dname,
                    );
                    assert(orig@[j] == orig@.drop_last()[j]);
                }
                if s3.last_scope_addr.n < si.last_scope_addr.n {
                    lemma_params_known_kept(&si, &*state, params@, s3.last_scope_addr.n, si.last_scope_addr.n as int, (dname, si.last_scope_addr.n), orig@);
                } else {
                    lemma_params_known_kept(&si, &*state, params@, s3.last_scope_addr.n, next_scope(si.last_scope_addr.n) as int, (dname, si.last_scope_addr.n), orig@);
                }
            }
            lemma_kept_chain(&s3, &si, &*state, s3.last_scope_addr.n as int);
            lemma_grows_trans(&s0, &si, &*state);
            lemma_grows_trans(&s1, &si, &*state);
            assert(state.scopes@.drop_last() =~= si.scopes@.drop_last());
            let old_trace = trace;
            trace = trace.push(*state);
            assert forall|i: int| #![trigger decls0[i]] 0 <= i < trace.len() - 1 implies decl_step(
                trace[i],
                trace[i + 1],
                decls0[i],
            ) by {
                if i < k {
                    assert(trace[i] == old_trace[i]);
                    assert(trace[i + 1] == old_trace[i + 1]);
                }
            }
        }
    }
    let ghost s4 = *state;
    let ghost mut mid = s4;
    proof {
        assert(trace.len() == decls0.len() + 1);
    }
    let out = match last {
        Statement::FunctionCall(fc) => {
            let ghost fcv = *fc;
            let r = match crawl_function_call(state, *fc) {
                Some(t) => t,
                None => OrganicType::Unknown,
            };
            proof {
                lemma_grows_trans(&s0, &s4, &*state);
                lemma_grows_trans(&s1, &s4, &*state);
                assert(call_step(s4, *state, fcv));
                if s0.last_scope_addr.n < u64::MAX - 1 {
                    if s3.last_scope_addr.n < s4.last_scope_addr.n {
                        lemma_params_known_kept(&s4, &*state, params@, s3.last_scope_addr.n, s4.last_scope_addr.n as int, (seq![], 0), orig@);
                    } else {
                        lemma_params_known_kept(&s4, &*state, params@, s3.last_scope_addr.n, next_scope(s4.last_scope_addr.n) as int, (seq![], 0), orig@);
                    }
                }
            }
            r
        },
        Statement::VariableDecl(decl) => {
            push_warning(state, decl.name.token.clone(), AnalyzerWarningType::UselessFnBody);
            let ghost s5 = *state;
            proof {
                mid = s5;
            }
            proof {
                assert(diags_view(s4.analysis.diagnostics@).is_prefix_of(diags_view(state.analysis.diagnostics@)));
                assert(s4.analysis.non_var_tokens@.is_prefix_of(state.analysis.non_var_tokens@));
                assert(s4.wf());
                assert(s5.scopes == s4.scopes && s5.vars == s4.vars);
                assert(s5.analysis.usages == s4.analysis.usages && s5.analysis.definitions == s4.analysis.definitions);
                assert(s5.wf());
                assert(s4.grows_into(&s5));
                lemma_grows_trans(&s0, &s4, &s5);
                lemma_grows_trans(&s1, &s4, &s5);
            }
            let ghost lname = decl.name.name@;
            crawl_var_decl(state, decl);
            proof {
                lemma_grows_trans(&s0, &s5, &*state);
                lemma_grows_trans(&s1, &s5, &*state);
                assert(state.scopes@.drop_last() =~= s5.scopes@.drop_last());
                if s0.last_scope_addr.n < u64::MAX - 1 {
                    assert(s5.uses() =~= s4.uses());
                    assert(kept_below(&s4, &s5, next_scope(s4.last_scope_addr.n) as int));
                    lemma_params_known_kept(&s4, &s5, params@, s3.last_scope_addr.n, next_scope(s4.last_scope_addr.n) as int, (seq![], 0), orig@);
                    assert(declares(orig@, lname)) by {
                        assert(declares_name(orig@[orig@.len() - 1], lname));
                    }
                    if s3.last_scope_addr.n < s5.last_scope_addr.n {
                        lemma_params_known_kept(&s5, &*state, params@, s3.last_scope_addr.n, s5.last_scope_addr.n as int, (lname, s5.last_scope_addr.n), orig@);
                    } else {
                        lemma_params_known_kept(&s5, &*state, params@, s3.last_scope_addr.n, next_scope(s5.last_scope_addr.n) as int, (lname, s5.last_scope_addr.n), orig@);
                    }
                }
            }
            OrganicType::Unknown
        },
    };
    let ghost s6 = *state;
    proof {
        assert(s4.grows_into(&s6)) by {
            if mid != s4 {
                lemma_grows_trans(&s4, &mid, &s6);
            }
        }
        lemma_kept_chain(&s3, &s4, &s6, s3.last_scope_addr.n as int);
        if s0.last_scope_addr.n < u64::MAX - 1 {
            let m = bind_all(Map::empty(), param_entries(params@));
            assert forall|nm: Seq<char>| #[trigger] m.contains_key(nm) && !declares(orig@, nm) implies table_get(
                s6.vars@,
                (nm, s3.last_scope_addr.n),
            ) == table_get(s3.vars@, (nm, s3.last_scope_addr.n)) by {
                let q = (nm, s3.last_scope_addr.n);
                assert(table_get(s4.vars@, q) == table_get(s3.vars@, q));
                assert(orig@[orig@.len() - 1] == orig@.last());
                if q.1 < s4.last_scope_addr.n {
                    assert(table_get(s6.vars@, q) == table_get(s4.vars@, q));
                } else {
                    assert(table_get(s6.vars@, q) == table_get(s4.vars@, q));
                }
            }
            assert forall|nm: Seq<char>| #[trigger] m.contains_key(nm) && !declares(orig@, nm) implies (table_get(
                s6.vars@,
                (nm, next_scope(s0.last_scope_addr.n)),
            ) matches Some(t) && t@ == m[nm]) by {
                assert(table_get(s3.vars@, (nm, next_scope(s0.last_scope_addr.n))) == table_get(
                    s2.vars@,
                    (nm, next_scope(s0.last_scope_addr.n)),
                ));
            }
        }
        assert(s3.analysis == s2.analysis);
        assert(s2.last_scope_addr == s1.last_scope_addr);
        let nn = next_scope(s0.last_scope_addr.n) as int;
        assert(s1.analysis.usages == s0.analysis.usages);
        assert(s1.uses() =~= s0.uses());
        assert(kept_below(&s0, &s1, nn));
        assert(kept_below(&s1, &s2, nn));
        assert(s3.uses() =~= s2.uses());
        assert(kept_below(&s2, &s3, nn));
        assert(kept_below(&s3, &s6, nn));
        lemma_kept_join(&s0, &s1, &s2, nn);
        lemma_kept_join(&s0, &s2, &s3, nn);
        lemma_kept_join(&s0, &s3, &s6, nn);
    }
    let _ = state.scopes.pop();
    proof {
        if s0.last_scope_addr.n < u64::MAX - 1 {
            assert(state.uses() =~= s6.uses());
            assert(params_known_in(s6, params@, s3.last_scope_addr.n, orig@));
            assert(kept_below(&s6, &*state, s3.last_scope_addr.n + 1));
            lemma_params_known_kept(&s6, &*state, params@, s3.last_scope_addr.n, s3.last_scope_addr.n + 1, (seq![], 0), orig@);
        }
        assert(state.scopes@ =~= s6.scopes@.drop_last());
        lemma_wf_frame(&s0, &*state);
        assert(diags_view(s6.analysis.diagnostics@).is_prefix_of(diags_view(state.analysis.diagnostics@)));
        assert(s6.analysis.non_var_tokens@.is_prefix_of(state.analysis.non_var_tokens@));
        assert(body_seq == orig@.drop_last());
        assert(diags_view(s1.analysis.diagnostics@).is_prefix_of(diags_view(state.analysis.diagnostics@)));
        assert(body_trace(s0, params@, orig@, trace, out@));
        assert(trace.last() == s4);
        assert(body_end(s4, mid, s6, orig@.last(), out@));
        assert(scope_closed(s6, *state));
    }
    out
}

} // verus!
