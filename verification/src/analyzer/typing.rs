//! What analysing an expression that holds no function literal reports, and
//! the type it gives.  Such an expression binds no name, so what it reports
//! depends only on the scopes, the types of the addresses and the variable
//! being initialised.

use std::sync::Arc;

use vstd::prelude::*;

use crate::analyzer::analysis::NonVarToken;
use crate::analyzer::call_check::{call_report, ArgV};
use crate::analyzer::function::Function;
use crate::analyzer::diagnostics::{error_diag, warning_diag, AnalyzerWarningType, DiagV, ErrorV};
use crate::analyzer::expr_analyzer::{list_type, op_diags, op_type};
use crate::analyzer::organic_type::{OrganicType, ParamV, TypeV};
use crate::analyzer::scope::{resolve, Scope};
use crate::common::address::NamedVarAddress;
use crate::common::table::table_get;
use crate::lexer::token::{Token, TokenV};
use crate::parser::ast::{expr_token, Arg, Expr, Formal, FuncCall};

verus! {

/// Whether `e` holds no function literal.
pub open spec fn fn_free(e: Expr) -> bool
    decreases e,
{
    match e {
        Expr::Call { call, .. } => call_fn_free(call),
        Expr::Function { .. } => false,
        Expr::Grouping { value, .. } => fn_free(*value),
        Expr::List { values, .. } => exprs_fn_free(values@),
        Expr::Negated { value, .. } => fn_free(*value),
        Expr::Op { left, right, .. } => fn_free(*left) && fn_free(*right),
        _ => true,
    }
}

/// Whether the arguments of `call` hold no function literal.
pub open spec fn call_fn_free(call: FuncCall) -> bool
    decreases call,
{
    args_fn_free(call.args@)
}

/// Whether the expressions `es` hold no function literal.
pub open spec fn exprs_fn_free(es: Seq<Expr>) -> bool
    decreases es,
{
    es.len() == 0 || (fn_free(es[0]) && exprs_fn_free(es.drop_first()))
}

/// Whether the values of `args` hold no function literal.
pub open spec fn args_fn_free(args: Seq<Arg>) -> bool
    decreases args,
{
    args.len() == 0 || (fn_free(args[0].value) && args_fn_free(args.drop_first()))
}

/// What analysing `e` reports, and its type, where `scopes` bind the names,
/// `vars` give the addresses their types and `init` is the variable being
/// initialised:
/// - a call is checked by [`call_report_of`];
/// - a list has the common type of its elements, analysed up to the first
///   without a type (see [`list_report`]);
/// - a name is an error where it is the variable being initialised, and
///   where nothing binds it; otherwise it has the type of its address;
/// - a negation wants a number (see [`negation_report`]);
/// - an operation reports [`op_diags`] after its operands and has the type
///   [`op_type`];
/// - numbers and strings report nothing;
/// - function literals lie outside what this describes (see [`fn_free`]).
pub open spec fn expr_report(
    scopes: Seq<Scope>,
    vars: Seq<(NamedVarAddress, OrganicType)>,
    init: Option<String>,
    e: Expr,
) -> (Seq<DiagV>, Option<TypeV>)
    decreases e,
{
    match e {
        Expr::Call { call, .. } => call_report_of(scopes, vars, init, call),
        Expr::Function { .. } => (seq![], None),
        Expr::Grouping { value, .. } => expr_report(scopes, vars, init, *value),
        Expr::List { values, .. } => list_report(items_report(scopes, vars, init, values@)),
        Expr::LValue { name, token, .. } => {
            let self_ref = if init matches Some(v) && v@ == name.name@ {
                seq![error_diag(ErrorV::VarCannotInitInTermsOfSelf, token@)]
            } else {
                seq![]
            };
            match resolve(scopes, name.name@) {
                Some(addr) => (self_ref, Some(table_get(vars, addr@)->0@)),
                None => (self_ref.push(error_diag(ErrorV::NoSuchVariable, token@)), None),
            }
        },
        Expr::Negated { value, token, .. } => negation_report(
            expr_report(scopes, vars, init, *value),
            token@,
        ),
        Expr::Number { .. } => (seq![], Some(TypeV::Number)),
        Expr::Op { left, operator, right, .. } => {
            let (dl, lt) = expr_report(scopes, vars, init, *left);
            let (dr, rt) = expr_report(scopes, vars, init, *right);
            (
                dl + dr + op_diags(operator, lt, rt, expr_token(&*left), expr_token(&*right)),
                Some(op_type(operator)),
            )
        },
        Expr::String { .. } => (seq![], Some(TypeV::String)),
    }
}

/// A list's report, from that of its elements: their diagnostics, and
/// their common type where they all have one.
pub open spec fn list_report(items: (Seq<DiagV>, Option<Seq<TypeV>>)) -> (Seq<DiagV>, Option<TypeV>) {
    (
        items.0,
        match items.1 {
            Some(ts) => list_type(ts),
            None => None,
        },
    )
}

/// A negation's report, from that of the negated expression (`inner`): a
/// type other than a number is a mismatch at `token`, and leaves the
/// negation without a type.
pub open spec fn negation_report(inner: (Seq<DiagV>, Option<TypeV>), token: TokenV) -> (
    Seq<DiagV>,
    Option<TypeV>,
) {
    match inner.1 {
        Some(got) => if got == TypeV::Number {
            inner
        } else {
            (inner.0.push(error_diag(ErrorV::TypeMismatch { expected: TypeV::Number, got }, token)), None)
        },
        None => inner,
    }
}

/// What analysing the elements `es` of a list in order reports, and their
/// types; the analysis stops after the first element without a type, and
/// then there are no types.
pub open spec fn items_report(
    scopes: Seq<Scope>,
    vars: Seq<(NamedVarAddress, OrganicType)>,
    init: Option<String>,
    es: Seq<Expr>,
) -> (Seq<DiagV>, Option<Seq<TypeV>>)
    decreases es,
{
    if es.len() == 0 {
        (seq![], Some(seq![]))
    } else {
        let (d, t) = expr_report(scopes, vars, init, es[0]);
        match t {
            None => (d, None),
            Some(t) => {
                let (d2, ts) = items_report(scopes, vars, init, es.drop_first());
                (
                    d + d2,
                    match ts {
                        Some(ts) => Some(seq![t] + ts),
                        None => None,
                    },
                )
            },
        }
    }
}

/// What analysing the values of `args` in order reports, and the arguments
/// as a call check sees them (a value without a type counts as unknown).
pub open spec fn args_report(
    scopes: Seq<Scope>,
    vars: Seq<(NamedVarAddress, OrganicType)>,
    init: Option<String>,
    args: Seq<Arg>,
) -> (Seq<DiagV>, Seq<ArgV>)
    decreases args,
{
    if args.len() == 0 {
        (seq![], seq![])
    } else {
        let (d, t) = expr_report(scopes, vars, init, args[0].value);
        let a = ArgV {
            name: args[0].name.name@,
            typ: match t {
                Some(t) => t,
                None => TypeV::Unknown,
            },
            token: args[0].name.token@,
        };
        let (d2, rest) = args_report(scopes, vars, init, args.drop_first());
        (d + d2, seq![a] + rest)
    }
}

/// The names of `args`, in order.
pub open spec fn arg_names(args: Seq<Arg>) -> Seq<Seq<char>> {
    args.map_values(|a: Arg| a.name.name@)
}

/// A warning at each argument whose name an earlier argument has.
pub open spec fn overrides(args: Seq<Arg>) -> Seq<DiagV>
    decreases args.len(),
{
    if args.len() == 0 {
        seq![]
    } else {
        overrides(args.drop_last()) + if arg_names(args.drop_last()).contains(args.last().name.name@) {
            seq![warning_diag(AnalyzerWarningType::ArgOverridesPrevious, args.last().name.token@)]
        } else {
            seq![]
        }
    }
}

/// The function type that a call with the arguments `args` would need.
pub open spec fn called_as(args: Seq<ArgV>) -> TypeV {
    TypeV::Function(
        args.map_values(|a: ArgV| ParamV { name: a.name, typ: a.typ, has_default: false }),
        Box::new(TypeV::Unknown),
    )
}

/// What analysing a call reports, and its type: an unbound callee is an
/// error; otherwise the repeated argument names are warned about, the
/// values are analysed in order, and a callee of a function type is checked
/// by [`call_report`], while any other callee is a type mismatch.
pub open spec fn call_report_of(
    scopes: Seq<Scope>,
    vars: Seq<(NamedVarAddress, OrganicType)>,
    init: Option<String>,
    call: FuncCall,
) -> (Seq<DiagV>, Option<TypeV>)
    decreases call,
{
    match resolve(scopes, call.func.name@) {
        None => (seq![error_diag(ErrorV::NoSuchFn, call.func.token@)], None),
        Some(addr) => {
            let (da, avs) = args_report(scopes, vars, init, call.args@);
            let w = overrides(call.args@);
            let callee = table_get(vars, addr@)->0@;
            match callee {
                TypeV::Function(ps, ret) => {
                    let (dc, t) = call_report(ps, *ret, avs, call.func.token@);
                    (w + da + dc, t)
                },
                _ => (
                    w + da + seq![
                        error_diag(
                            ErrorV::TypeMismatch { expected: callee, got: called_as(avs) },
                            call.func.token@,
                        ),
                    ],
                    None,
                ),
            }
        },
    }
}

/// The uses of names that analysing `e` records, each an address with the
/// token where it is used (as [`expr_report`] analyses `e`): a name that
/// resolves is used at its token, and so is a callee of a function type,
/// at the token of its name.
pub open spec fn expr_uses(
    scopes: Seq<Scope>,
    vars: Seq<(NamedVarAddress, OrganicType)>,
    init: Option<String>,
    e: Expr,
) -> Set<((Seq<char>, u64), TokenV)>
    decreases e,
{
    match e {
        Expr::Call { call, .. } => call_uses(scopes, vars, init, call),
        Expr::Function { .. } => Set::empty(),
        Expr::Grouping { value, .. } => expr_uses(scopes, vars, init, *value),
        Expr::List { values, .. } => items_uses(scopes, vars, init, values@),
        Expr::LValue { name, token, .. } => match resolve(scopes, name.name@) {
            Some(addr) => set![(addr@, token@)],
            None => Set::empty(),
        },
        Expr::Negated { value, .. } => expr_uses(scopes, vars, init, *value),
        Expr::Op { left, right, .. } => expr_uses(scopes, vars, init, *left).union(
            expr_uses(scopes, vars, init, *right),
        ),
        _ => Set::empty(),
    }
}

/// The uses recorded while analysing the elements `es` of a list, up to
/// the first without a type.
pub open spec fn items_uses(
    scopes: Seq<Scope>,
    vars: Seq<(NamedVarAddress, OrganicType)>,
    init: Option<String>,
    es: Seq<Expr>,
) -> Set<((Seq<char>, u64), TokenV)>
    decreases es,
{
    if es.len() == 0 {
        Set::empty()
    } else if expr_report(scopes, vars, init, es[0]).1 is None {
        expr_uses(scopes, vars, init, es[0])
    } else {
        expr_uses(scopes, vars, init, es[0]).union(items_uses(scopes, vars, init, es.drop_first()))
    }
}

/// The uses recorded while analysing the values of `args`.
pub open spec fn args_uses(
    scopes: Seq<Scope>,
    vars: Seq<(NamedVarAddress, OrganicType)>,
    init: Option<String>,
    args: Seq<Arg>,
) -> Set<((Seq<char>, u64), TokenV)>
    decreases args,
{
    if args.len() == 0 {
        Set::empty()
    } else {
        expr_uses(scopes, vars, init, args[0].value).union(args_uses(scopes, vars, init, args.drop_first()))
    }
}

/// The uses recorded while analysing a call: those of its values, and,
/// where the callee resolves to a function type, the callee's at the token
/// of its name.
pub open spec fn call_uses(
    scopes: Seq<Scope>,
    vars: Seq<(NamedVarAddress, OrganicType)>,
    init: Option<String>,
    call: FuncCall,
) -> Set<((Seq<char>, u64), TokenV)>
    decreases call,
{
    match resolve(scopes, call.func.name@) {
        None => Set::empty(),
        Some(addr) => {
            let values = args_uses(scopes, vars, init, call.args@);
            if table_get(vars, addr@)->0@ is Function {
                values.insert((addr@, call.func.token@))
            } else {
                values
            }
        },
    }
}

/// The name and the token of the name of each argument of a call, in
/// order.
pub open spec fn arg_marks(args: Seq<Arg>) -> Seq<(Seq<char>, Token)> {
    args.map_values(|a: Arg| (a.name.name@, a.name.token))
}

/// The named-argument tokens a call of the function `f`, bound at `addr`,
/// marks among the named tokens `xs`: each whose name no later one
/// repeats, in order.
pub open spec fn named_marks(xs: Seq<(Seq<char>, Token)>, addr: NamedVarAddress, f: Arc<Function>) -> Seq<
    NonVarToken,
>
    decreases xs.len(),
{
    if xs.len() == 0 {
        seq![]
    } else {
        (if xs.drop_first().map_values(|x: (Seq<char>, Token)| x.0).contains(xs[0].0) {
            seq![]
        } else {
            seq![NonVarToken::NamedArg(xs[0].1, addr, f)]
        }) + named_marks(xs.drop_first(), addr, f)
    }
}

/// The tokens that are not variables which analysing `e` records, in order
/// (as [`expr_report`] analyses `e`): its numbers and strings, and the
/// names of the arguments of calls of functions.
pub open spec fn expr_nvts(
    scopes: Seq<Scope>,
    vars: Seq<(NamedVarAddress, OrganicType)>,
    init: Option<String>,
    e: Expr,
) -> Seq<NonVarToken>
    decreases e,
{
    match e {
        Expr::Call { call, .. } => call_nvts(scopes, vars, init, call),
        Expr::Function { .. } => seq![],
        Expr::Grouping { value, .. } => expr_nvts(scopes, vars, init, *value),
        Expr::List { values, .. } => items_nvts(scopes, vars, init, values@),
        Expr::LValue { .. } => seq![],
        Expr::Negated { value, .. } => expr_nvts(scopes, vars, init, *value),
        Expr::Number { token, .. } => seq![NonVarToken::Number(token)],
        Expr::Op { left, right, .. } => expr_nvts(scopes, vars, init, *left) + expr_nvts(
            scopes,
            vars,
            init,
            *right,
        ),
        Expr::String { value, token, .. } => seq![NonVarToken::String(token, value)],
    }
}

/// The tokens that are not variables recorded while analysing the
/// elements `es` of a list, up to the first without a type.
pub open spec fn items_nvts(
    scopes: Seq<Scope>,
    vars: Seq<(NamedVarAddress, OrganicType)>,
    init: Option<String>,
    es: Seq<Expr>,
) -> Seq<NonVarToken>
    decreases es,
{
    if es.len() == 0 {
        seq![]
    } else if expr_report(scopes, vars, init, es[0]).1 is None {
        expr_nvts(scopes, vars, init, es[0])
    } else {
        expr_nvts(scopes, vars, init, es[0]) + items_nvts(scopes, vars, init, es.drop_first())
    }
}

/// The tokens that are not variables recorded while analysing the values
/// of `args`.
pub open spec fn args_nvts(
    scopes: Seq<Scope>,
    vars: Seq<(NamedVarAddress, OrganicType)>,
    init: Option<String>,
    args: Seq<Arg>,
) -> Seq<NonVarToken>
    decreases args,
{
    if args.len() == 0 {
        seq![]
    } else {
        expr_nvts(scopes, vars, init, args[0].value) + args_nvts(scopes, vars, init, args.drop_first())
    }
}

/// The tokens that are not variables recorded while analysing a call:
/// those of its values, then, where the callee resolves to a function, the
/// names of its arguments as [`named_marks`] says.
pub open spec fn call_nvts(
    scopes: Seq<Scope>,
    vars: Seq<(NamedVarAddress, OrganicType)>,
    init: Option<String>,
    call: FuncCall,
) -> Seq<NonVarToken>
    decreases call,
{
    match resolve(scopes, call.func.name@) {
        None => seq![],
        Some(addr) => args_nvts(scopes, vars, init, call.args@) + match table_get(vars, addr@)->0 {
            OrganicType::Function(f) => named_marks(arg_marks(call.args@), addr, f),
            _ => seq![],
        },
    }
}

/// Whether the defaults of the formal parameters `fs` hold no function
/// literal.
pub open spec fn formals_fn_free(fs: Seq<Formal>) -> bool
    decreases fs.len(),
{
    fs.len() == 0 || (fn_free(fs[0].default) && formals_fn_free(fs.drop_first()))
}

/// The names of the formal parameters `fs`, in order.
pub open spec fn formal_names(fs: Seq<Formal>) -> Seq<Seq<char>> {
    fs.map_values(|f: Formal| f.name.name@)
}

/// What analysing the formal parameters `fs` of a function literal in
/// order reports, and the types of their defaults: a name among `known`, or
/// earlier in `fs`, is a duplicate; the analysis stops after the first
/// default without a type, and then there are no types.
pub open spec fn formals_report(
    scopes: Seq<Scope>,
    vars: Seq<(NamedVarAddress, OrganicType)>,
    init: Option<String>,
    known: Seq<Seq<char>>,
    fs: Seq<Formal>,
) -> (Seq<DiagV>, Option<Seq<TypeV>>)
    decreases fs.len(),
{
    if fs.len() == 0 {
        (seq![], Some(seq![]))
    } else {
        let dup = if known.contains(fs[0].name.name@) {
            seq![error_diag(ErrorV::DuplicateParameter, fs[0].name.token@)]
        } else {
            seq![]
        };
        let (d, t) = expr_report(scopes, vars, init, fs[0].default);
        match t {
            None => (dup + d, None),
            Some(t) => {
                let (d2, ts) = formals_report(scopes, vars, init, known.push(fs[0].name.name@), fs.drop_first());
                (
                    dup + d + d2,
                    match ts {
                        Some(ts) => Some(seq![t] + ts),
                        None => None,
                    },
                )
            },
        }
    }
}

} // verus!
