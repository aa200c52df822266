//! Checking the arguments of a call against the callee's parameters.

use vstd::prelude::*;

use crate::analyzer::diagnostics::{
    diags_view, error_diag, AnalyzerDiagnostic, AnalyzerDiagnosticType, AnalyzerErrorType, DiagV,
    ErrorV,
};
use crate::analyzer::function::{Function, ParamInfo};
use crate::analyzer::generics::{
    bind_generics, consume_generic, consume_generic_binding, find_generic_bindings, gen_map,
};
use crate::analyzer::organic_type::{clone_type, lemma_params_view, param_view, params_view, same_type, OrganicType, ParamV, TypeV};
use crate::lexer::token::{Token, TokenV};

verus! {

/// The index of the last parameter named `k`, or -1.
pub open spec fn param_index(ps: Seq<ParamInfo>, k: Seq<char>) -> int
    decreases ps.len(),
{
    if ps.len() == 0 {
        -1
    } else if ps.last().0@ == k {
        ps.len() - 1
    } else {
        param_index(ps.drop_last(), k)
    }
}

/// The index of the last argument named `k`, or -1.
pub open spec fn arg_index(args: Seq<(ParamInfo, Token)>, k: Seq<char>) -> int
    decreases args.len(),
{
    if args.len() == 0 {
        -1
    } else if args.last().0.0@ == k {
        args.len() - 1
    } else {
        arg_index(args.drop_last(), k)
    }
}

/// The names in a call, parameters first, then arguments.
pub open spec fn call_names(ps: Seq<ParamInfo>, args: Seq<(ParamInfo, Token)>) -> Seq<Seq<char>> {
    ps.map_values(|p: ParamInfo| p.0@) + args.map_values(|a: (ParamInfo, Token)| a.0.0@)
}

/// What checking the name `k` reports, and the generic bindings after it:
/// a required parameter with no argument is missing; an argument with no
/// parameter is extra; an argument whose type differs from the parameter's
/// (after binding generic names) is a mismatch, reported at the argument.
/// Where a name occurs more than once, the last occurrence counts.
pub open spec fn check_key(
    k: Seq<char>,
    ps: Seq<ParamInfo>,
    args: Seq<(ParamInfo, Token)>,
    call_token: TokenV,
    m: Map<Seq<char>, TypeV>,
) -> (Seq<DiagV>, Map<Seq<char>, TypeV>) {
    let pi = param_index(ps, k);
    let ai = arg_index(args, k);
    if pi >= 0 && ai < 0 {
        if ps[pi].2 {
            (seq![], m)
        } else {
            (seq![error_diag(ErrorV::MissingArgument { name: k, typ: ps[pi].1@ }, call_token)], m)
        }
    } else if pi < 0 && ai >= 0 {
        (seq![error_diag(ErrorV::ExtraArgument { name: k }, call_token)], m)
    } else if pi >= 0 && ai >= 0 {
        let got = args[ai].0.1@;
        let (m2, expected) = bind_generics(m, ps[pi].1@, got);
        if expected != got {
            (seq![error_diag(ErrorV::TypeMismatch { expected, got }, args[ai].1@)], m2)
        } else {
            (seq![], m2)
        }
    } else {
        (seq![], m)
    }
}

/// Checks each distinct name of `names` in order of first occurrence.
pub open spec fn check_names(
    names: Seq<Seq<char>>,
    ps: Seq<ParamInfo>,
    args: Seq<(ParamInfo, Token)>,
    call_token: TokenV,
    m: Map<Seq<char>, TypeV>,
) -> (Seq<DiagV>, Map<Seq<char>, TypeV>)
    decreases names.len(),
{
    if names.len() == 0 {
        (seq![], m)
    } else {
        let (d, m1) = check_names(names.drop_last(), ps, args, call_token, m);
        if names.drop_last().contains(names.last()) {
            (d, m1)
        } else {
            let (d2, m2) = check_key(names.last(), ps, args, call_token, m1);
            (d + d2, m2)
        }
    }
}

/// What checking a call of `f` with `args` reports, and the call's type.
pub open spec fn check_call_spec(f: &Function, args: Seq<(ParamInfo, Token)>, call_token: TokenV) -> (
    Seq<DiagV>,
    Option<TypeV>,
) {
    let (d, m) = check_names(call_names(f.params@, args), f.params@, args, call_token, Map::empty());
    (d, consume_generic(m, f.return_type@).1)
}

/// An argument of a call as the check sees it: its name, its type and the
/// token of its name.
pub struct ArgV {
    pub name: Seq<char>,
    pub typ: TypeV,
    pub token: TokenV,
}

pub open spec fn arg_view(a: (ParamInfo, Token)) -> ArgV {
    ArgV { name: a.0.0@, typ: a.0.1@, token: a.1@ }
}

pub open spec fn args_view(args: Seq<(ParamInfo, Token)>) -> Seq<ArgV> {
    args.map_values(|a: (ParamInfo, Token)| arg_view(a))
}

/// The index of the last parameter named `k`, or -1.
pub open spec fn param_pos(ps: Seq<ParamV>, k: Seq<char>) -> int
    decreases ps.len(),
{
    if ps.len() == 0 {
        -1
    } else if ps.last().name == k {
        ps.len() - 1
    } else {
        param_pos(ps.drop_last(), k)
    }
}

/// The index of the last argument named `k`, or -1.
pub open spec fn arg_pos(args: Seq<ArgV>, k: Seq<char>) -> int
    decreases args.len(),
{
    if args.len() == 0 {
        -1
    } else if args.last().name == k {
        args.len() - 1
    } else {
        arg_pos(args.drop_last(), k)
    }
}

/// What checking the name `k` of a call reports, and the generic bindings
/// after it, over the parameters' and arguments' contents (as
/// [`check_key`]).
pub open spec fn key_report(
    k: Seq<char>,
    ps: Seq<ParamV>,
    args: Seq<ArgV>,
    call_token: TokenV,
    m: Map<Seq<char>, TypeV>,
) -> (Seq<DiagV>, Map<Seq<char>, TypeV>) {
    let pi = param_pos(ps, k);
    let ai = arg_pos(args, k);
    if pi >= 0 && ai < 0 {
        if ps[pi].has_default {
            (seq![], m)
        } else {
            (seq![error_diag(ErrorV::MissingArgument { name: k, typ: ps[pi].typ }, call_token)], m)
        }
    } else if pi < 0 && ai >= 0 {
        (seq![error_diag(ErrorV::ExtraArgument { name: k }, call_token)], m)
    } else if pi >= 0 && ai >= 0 {
        let got = args[ai].typ;
        let (m2, expected) = bind_generics(m, ps[pi].typ, got);
        if expected != got {
            (seq![error_diag(ErrorV::TypeMismatch { expected, got }, args[ai].token)], m2)
        } else {
            (seq![], m2)
        }
    } else {
        (seq![], m)
    }
}

/// Checks each distinct name of `names` in order of first occurrence.
pub open spec fn names_report(
    names: Seq<Seq<char>>,
    ps: Seq<ParamV>,
    args: Seq<ArgV>,
    call_token: TokenV,
    m: Map<Seq<char>, TypeV>,
) -> (Seq<DiagV>, Map<Seq<char>, TypeV>)
    decreases names.len(),
{
    if names.len() == 0 {
        (seq![], m)
    } else {
        let (d, m1) = names_report(names.drop_last(), ps, args, call_token, m);
        if names.drop_last().contains(names.last()) {
            (d, m1)
        } else {
            let (d2, m2) = key_report(names.last(), ps, args, call_token, m1);
            (d + d2, m2)
        }
    }
}

/// What a call of a function with parameters `ps` and result type `ret`,
/// given the arguments `args`, reports, and the call's type: the distinct
/// names, parameters first, each checked once; then the result with its
/// generic names replaced by what they were bound to.
pub open spec fn call_report(ps: Seq<ParamV>, ret: TypeV, args: Seq<ArgV>, call_token: TokenV) -> (
    Seq<DiagV>,
    Option<TypeV>,
) {
    let names = ps.map_values(|p: ParamV| p.name) + args.map_values(|a: ArgV| a.name);
    let (d, m) = names_report(names, ps, args, call_token, Map::empty());
    (d, consume_generic(m, ret).1)
}

/// Whether `t` involves no generic name, where a call could bind one.
pub open spec fn no_generics(t: TypeV) -> bool
    decreases t,
{
    match t {
        TypeV::Generic(_) => false,
        TypeV::List(inner) => no_generics(*inner),
        _ => true,
    }
}

proof fn lemma_bind_no_generics(m: Map<Seq<char>, TypeV>, t: TypeV)
    requires
        no_generics(t),
    ensures
        bind_generics(m, t, t) == (m, t),
    decreases t,
{
    if let TypeV::List(inner) = t {
        lemma_bind_no_generics(m, *inner);
    }
}

proof fn lemma_consume_no_generics(m: Map<Seq<char>, TypeV>, t: TypeV)
    requires
        no_generics(t),
    ensures
        consume_generic(m, t) == (m, Some(t)),
    decreases t,
{
    if let TypeV::List(inner) = t {
        lemma_consume_no_generics(m, *inner);
    }
}

proof fn lemma_param_pos_last(ps: Seq<ParamV>, k: Seq<char>)
    ensures
        -1 <= param_pos(ps, k) < ps.len(),
        param_pos(ps, k) >= 0 ==> ps[param_pos(ps, k)].name == k,
        forall|j: int| param_pos(ps, k) < j < ps.len() ==> ps[j].name != k,
    decreases ps.len(),
{
    if ps.len() > 0 && ps.last().name != k {
        lemma_param_pos_last(ps.drop_last(), k);
        assert forall|j: int| param_pos(ps, k) < j < ps.len() implies ps[j].name != k by {
            if j < ps.len() - 1 {
                assert(ps.drop_last()[j] == ps[j]);
            }
        }
    }
}

proof fn lemma_arg_pos_last(args: Seq<ArgV>, k: Seq<char>)
    ensures
        -1 <= arg_pos(args, k) < args.len(),
        arg_pos(args, k) >= 0 ==> args[arg_pos(args, k)].name == k,
        forall|j: int| arg_pos(args, k) < j < args.len() ==> args[j].name != k,
    decreases args.len(),
{
    if args.len() > 0 && args.last().name != k {
        lemma_arg_pos_last(args.drop_last(), k);
        assert forall|j: int| arg_pos(args, k) < j < args.len() implies args[j].name != k by {
            if j < args.len() - 1 {
                assert(args.drop_last()[j] == args[j]);
            }
        }
    }
}

/// A call that gives each parameter of a function once, in the order of
/// the parameters and with the parameter's own type, where neither those
/// types nor the result involve a generic name, reports nothing and has
/// the function's result type.
pub proof fn lemma_exact_call_is_accepted(ps: Seq<ParamV>, ret: TypeV, args: Seq<ArgV>, call_token: TokenV)
    requires
        args.len() == ps.len(),
        forall|i: int|
            0 <= i < ps.len() ==> (#[trigger] args[i]).name == ps[i].name && args[i].typ == ps[i].typ
                && no_generics(ps[i].typ),
        forall|i: int, j: int| 0 <= i < j < ps.len() ==> (#[trigger] ps[i]).name != (#[trigger] ps[j]).name,
        no_generics(ret),
    ensures
        call_report(ps, ret, args, call_token) == (Seq::<DiagV>::empty(), Some(ret)),
{
    let names = ps.map_values(|p: ParamV| p.name) + args.map_values(|a: ArgV| a.name);
    let n = ps.len() as int;
    let empty = Map::<Seq<char>, TypeV>::empty();
    assert forall|l: int| 0 <= l <= names.len() implies names_report(
        #[trigger] names.take(l),
        ps,
        args,
        call_token,
        empty,
    ) == (Seq::<DiagV>::empty(), empty) by {
        lemma_names_prefix_accepted(ps, args, call_token, names, l);
    }
    assert(names.take(names.len() as int) =~= names);
    lemma_consume_no_generics(empty, ret);
}

proof fn lemma_names_prefix_accepted(
    ps: Seq<ParamV>,
    args: Seq<ArgV>,
    call_token: TokenV,
    names: Seq<Seq<char>>,
    l: int,
)
    requires
        args.len() == ps.len(),
        forall|i: int|
            0 <= i < ps.len() ==> (#[trigger] args[i]).name == ps[i].name && args[i].typ == ps[i].typ
                && no_generics(ps[i].typ),
        forall|i: int, j: int| 0 <= i < j < ps.len() ==> (#[trigger] ps[i]).name != (#[trigger] ps[j]).name,
        names == ps.map_values(|p: ParamV| p.name) + args.map_values(|a: ArgV| a.name),
        0 <= l <= names.len(),
    ensures
        names_report(names.take(l), ps, args, call_token, Map::empty()) == (
            Seq::<DiagV>::empty(),
            Map::<Seq<char>, TypeV>::empty(),
        ),
    decreases l,
{
    let n = ps.len() as int;
    let empty = Map::<Seq<char>, TypeV>::empty();
    if l > 0 {
        lemma_names_prefix_accepted(ps, args, call_token, names, l - 1);
        let pre = names.take(l - 1);
        assert(names.take(l).drop_last() =~= pre);
        assert(names.take(l).last() == names[l - 1]);
        let k = names[l - 1];
        if l - 1 < n {
            assert(k == ps[l - 1].name);
            lemma_param_pos_last(ps, k);
            lemma_arg_pos_last(args, k);
            let pi = param_pos(ps, k);
            let ai = arg_pos(args, k);
            assert(pi == l - 1) by {
                if pi < l - 1 {
                    assert(ps[l - 1].name == k);
                }
                if pi > l - 1 {
                    assert(ps[pi].name == k);
                }
            }
            assert(ai == l - 1) by {
                assert(args[l - 1].name == k);
                if ai > l - 1 {
                    assert(args[ai].name == ps[ai].name);
                    assert(ps[ai].name == k);
                }
            }
            lemma_bind_no_generics(empty, ps[pi].typ);
            assert(key_report(k, ps, args, call_token, empty) == (Seq::<DiagV>::empty(), empty));
            assert(Seq::<DiagV>::empty() + Seq::<DiagV>::empty() =~= Seq::<DiagV>::empty());
        } else {
            assert(k == args[l - 1 - n].name);
            assert(k == ps[l - 1 - n].name);
            assert(pre[l - 1 - n] == k);
            assert(pre.contains(k));
        }
    } else {
        assert(names.take(0) =~= Seq::<Seq<char>>::empty());
    }
}

proof fn lemma_param_pos(ps: Seq<ParamInfo>, k: Seq<char>)
    ensures
        param_index(ps, k) == param_pos(params_view(ps), k),
    decreases ps.len(),
{
    if ps.len() > 0 {
        let pv = params_view(ps);
        assert(pv == params_view(ps.drop_last()).push(param_view(&ps.last())));
        assert(pv.drop_last() =~= params_view(ps.drop_last()));
        assert(pv.last().name == ps.last().0@);
        lemma_params_view(ps);
        lemma_param_pos(ps.drop_last(), k);
    }
}

proof fn lemma_arg_pos(args: Seq<(ParamInfo, Token)>, k: Seq<char>)
    ensures
        arg_index(args, k) == arg_pos(args_view(args), k),
    decreases args.len(),
{
    if args.len() > 0 {
        assert(args_view(args).drop_last() =~= args_view(args.drop_last()));
        lemma_arg_pos(args.drop_last(), k);
    }
}

proof fn lemma_names_report(
    names: Seq<Seq<char>>,
    ps: Seq<ParamInfo>,
    args: Seq<(ParamInfo, Token)>,
    call_token: TokenV,
    m: Map<Seq<char>, TypeV>,
)
    ensures
        check_names(names, ps, args, call_token, m) == names_report(
            names,
            params_view(ps),
            args_view(args),
            call_token,
            m,
        ),
    decreases names.len(),
{
    if names.len() > 0 {
        lemma_names_report(names.drop_last(), ps, args, call_token, m);
        let k = names.last();
        lemma_param_pos(ps, k);
        lemma_arg_pos(args, k);
        lemma_param_index(ps, k);
        lemma_arg_index(args, k);
        lemma_params_view(ps);
    }
}

/// The check of a call depends only on the contents of the callee's type
/// and of the arguments.
pub proof fn lemma_call_report(f: &Function, args: Seq<(ParamInfo, Token)>, call_token: TokenV)
    ensures
        check_call_spec(f, args, call_token) == call_report(
            params_view(f.params@),
            f.return_type@,
            args_view(args),
            call_token,
        ),
{
    let ps = f.params@;
    lemma_params_view(ps);
    assert(call_names(ps, args) =~= params_view(ps).map_values(|p: ParamV| p.name) + args_view(
        args,
    ).map_values(|a: ArgV| a.name));
    lemma_names_report(call_names(ps, args), ps, args, call_token, Map::empty());
}

proof fn lemma_param_index(ps: Seq<ParamInfo>, k: Seq<char>)
    ensures
        -1 <= param_index(ps, k) < ps.len(),
        param_index(ps, k) >= 0 ==> ps[param_index(ps, k)].0@ == k,
        param_index(ps, k) == -1 ==> forall|i: int| 0 <= i < ps.len() ==> ps[i].0@ != k,
    decreases ps.len(),
{
    if ps.len() > 0 && ps.last().0@ != k {
        lemma_param_index(ps.drop_last(), k);
        assert forall|i: int| 0 <= i < ps.len() && param_index(ps, k) == -1 implies ps[i].0@ != k by {
            if i < ps.len() - 1 {
                assert(ps.drop_last()[i] == ps[i]);
            }
        }
    }
}

proof fn lemma_arg_index(args: Seq<(ParamInfo, Token)>, k: Seq<char>)
    ensures
        -1 <= arg_index(args, k) < args.len(),
        arg_index(args, k) >= 0 ==> args[arg_index(args, k)].0.0@ == k,
    decreases args.len(),
{
    if args.len() > 0 && args.last().0.0@ != k {
        lemma_arg_index(args.drop_last(), k);
    }
}

fn find_param(ps: &Vec<ParamInfo>, k: &String) -> (r: Option<usize>)
    ensures
        match r {
            Some(i) => i as int == param_index(ps@, k@),
            None => param_index(ps@, k@) == -1,
        },
{
    let mut j = ps.len();
    proof {
        assert(ps@.take(j as int) =~= ps@);
    }
    while j > 0
        invariant
            j <= ps.len(),
            param_index(ps@, k@) == param_index(ps@.take(j as int), k@),
        decreases j,
    {
        proof {
            assert(ps@.take(j as int).drop_last() =~= ps@.take(j - 1));
        }
        if ps[j - 1].0 == *k {
            return Some(j - 1);
        }
        j = j - 1;
    }
    None
}

fn find_arg(args: &Vec<(ParamInfo, Token)>, k: &String) -> (r: Option<usize>)
    ensures
        match r {
            Some(i) => i as int == arg_index(args@, k@),
            None => arg_index(args@, k@) == -1,
        },
{
    let mut j = args.len();
    proof {
        assert(args@.take(j as int) =~= args@);
    }
    while j > 0
        invariant
            j <= args.len(),
            arg_index(args@, k@) == arg_index(args@.take(j as int), k@),
        decreases j,
    {
        proof {
            assert(args@.take(j as int).drop_last() =~= args@.take(j - 1));
        }
        if args[j - 1].0.0 == *k {
            return Some(j - 1);
        }
        j = j - 1;
    }
    None
}

/// A sequence with `a` pushed holds `x` where it held it before or `a` is
/// `x`.
pub proof fn lemma_push_contains(s: Seq<Seq<char>>, a: Seq<char>, x: Seq<char>)
    ensures
        s.push(a).contains(x) == (s.contains(x) || a == x),
{
    if s.push(a).contains(x) {
        let k = choose|k: int| 0 <= k < s.push(a).len() && s.push(a)[k] == x;
        if k < s.len() {
            assert(s[k] == x);
        }
    }
    if s.contains(x) {
        let k = choose|k: int| 0 <= k < s.len() && s[k] == x;
        assert(s.push(a)[k] == x);
    }
    if a == x {
        assert(s.push(a)[s.len() as int] == x);
    }
}

/// Whether the name at position `idx` of the call's names occurs earlier.
fn seen_before(ps: &Vec<ParamInfo>, args: &Vec<(ParamInfo, Token)>, in_args: bool, pos: usize) -> (r: bool)
    requires
        in_args ==> pos < args.len(),
        !in_args ==> pos < ps.len(),
    ensures
        ({
            let names = call_names(ps@, args@);
            let idx = if in_args {
                ps.len() + pos
            } else {
                pos as int
            };
            r == names.take(idx).contains(names[idx])
        }),
{
    let ghost names = call_names(ps@, args@);
    let ghost idx = if in_args {
        ps.len() + pos
    } else {
        pos as int
    };
    let name = if in_args {
        &args[pos].0.0
    } else {
        &ps[pos].0
    };
    assert(name@ == names[idx]);
    let bound = if in_args {
        ps.len()
    } else {
        pos
    };
    let mut seen = false;
    let mut j: usize = 0;
    proof {
        assert(names.take(0) =~= Seq::<Seq<char>>::empty());
    }
    while j < bound
        invariant
            j <= bound <= ps.len(),
            bound as int <= idx,
            names == call_names(ps@, args@),
            name@ == names[idx],
            0 <= idx < names.len(),
            seen == names.take(j as int).contains(names[idx]),
        decreases bound - j,
    {
        proof {
            assert(names.take(j + 1) =~= names.take(j as int).push(names[j as int]));
            lemma_push_contains(names.take(j as int), names[j as int], names[idx]);
        }
        if ps[j].0 == *name {
            seen = true;
        }
        j = j + 1;
    }
    if in_args {
        let mut a: usize = 0;
        while a < pos
            invariant
                a <= pos < args.len(),
                idx == ps.len() + pos,
                names == call_names(ps@, args@),
                name@ == names[idx],
                0 <= idx < names.len(),
                seen == names.take(ps.len() + a).contains(names[idx]),
            decreases pos - a,
        {
            proof {
                let t = ps.len() + a;
                assert(names.take(t + 1) =~= names.take(t).push(names[t]));
                lemma_push_contains(names.take(t), names[t], names[idx]);
            }
            if args[a].0.0 == *name {
                seen = true;
            }
            a = a + 1;
        }
    }
    seen
}

/// Checks one name of the call, unless it occurred earlier.
fn check_name_at(
    f: &Function,
    args: &Vec<(ParamInfo, Token)>,
    call_token: &Token,
    in_args: bool,
    pos: usize,
    diags: &mut Vec<AnalyzerDiagnostic>,
    bindings: &mut Vec<(String, OrganicType)>,
)
    requires
        in_args ==> pos < args.len(),
        !in_args ==> pos < f.params.len(),
        crate::common::table::keys_unique(old(bindings)@),
        ({
            let names = call_names(f.params@, args@);
            let idx = if in_args {
                f.params.len() + pos
            } else {
                pos as int
            };
            (diags_view(old(diags)@), gen_map(old(bindings)@)) == check_names(
                names.take(idx),
                f.params@,
                args@,
                call_token@,
                Map::empty(),
            )
        }),
    ensures
        crate::common::table::keys_unique(final(bindings)@),
        ({
            let names = call_names(f.params@, args@);
            let idx = if in_args {
                f.params.len() + pos
            } else {
                pos as int
            };
            (diags_view(final(diags)@), gen_map(final(bindings)@)) == check_names(
                names.take(idx + 1),
                f.params@,
                args@,
                call_token@,
                Map::empty(),
            )
        }),
{
    let ghost names = call_names(f.params@, args@);
    let ghost idx = if in_args {
        f.params.len() + pos
    } else {
        pos as int
    };
    let name = if in_args {
        &args[pos].0.0
    } else {
        &f.params[pos].0
    };
    proof {
        assert(name@ == names[idx]);
        assert(names.take(idx + 1).drop_last() =~= names.take(idx));
        assert(names.take(idx + 1).last() == names[idx]);
    }
    if seen_before(&f.params, args, in_args, pos) {
        return ;
    }
    let ghost before = diags_view(diags@);
    let pi = find_param(&f.params, name);
    let ai = find_arg(args, name);
    proof {
        lemma_param_index(f.params@, name@);
        lemma_arg_index(args@, name@);
    }
    match (pi, ai) {
        (Some(p), None) => {
            if !f.params[p].2 {
                diags.push(
                    AnalyzerDiagnostic {
                        typ: AnalyzerDiagnosticType::AnalyzerError(
                            AnalyzerErrorType::MissingArgument {
                                name: name.clone(),
                                typ: clone_type(&f.params[p].1),
                            },
                        ),
                        offender: call_token.clone(),
                    },
                );
            }
        },
        (None, Some(_)) => {
            diags.push(
                AnalyzerDiagnostic {
                    typ: AnalyzerDiagnosticType::AnalyzerError(
                        AnalyzerErrorType::ExtraArgument { name: name.clone() },
                    ),
                    offender: call_token.clone(),
                },
            );
        },
        (Some(p), Some(a)) => {
            let got = &args[a].0.1;
            let expected = find_generic_bindings(bindings, clone_type(&f.params[p].1), got);
            if !same_type(&expected, got) {
                diags.push(
                    AnalyzerDiagnostic {
                        typ: AnalyzerDiagnosticType::AnalyzerError(
                            AnalyzerErrorType::TypeMismatch { expected, got: clone_type(got) },
                        ),
                        offender: args[a].1.clone(),
                    },
                );
            }
        },
        (None, None) => {},
    }
    proof {
        assert(diags_view(diags@) =~= before + check_key(
            name@,
            f.params@,
            args@,
            call_token@,
            check_names(names.take(idx), f.params@, args@, call_token@, Map::empty()).1,
        ).0);
    }
}

/// Checks the arguments of a call of `f`.  `args` holds each argument's
/// name and type with the token of its name, in the order written.  The
/// distinct names are checked parameters first, in order of first
/// occurrence.
pub fn check_call(f: &Function, args: &Vec<(ParamInfo, Token)>, call_token: &Token) -> (r: (
    Vec<AnalyzerDiagnostic>,
    Option<OrganicType>,
))
    ensures
        diags_view(r.0@) == check_call_spec(f, args@, call_token@).0,
        match r.1 {
            Some(t) => Some(t@),
            None => None,
        } == check_call_spec(f, args@, call_token@).1,
{
    let ghost names = call_names(f.params@, args@);
    let mut diags: Vec<AnalyzerDiagnostic> = Vec::new();
    let mut bindings: Vec<(String, OrganicType)> = Vec::new();
    proof {
        assert(names.take(0) =~= Seq::<Seq<char>>::empty());
        assert(gen_map(bindings@) =~= Map::<Seq<char>, TypeV>::empty());
        assert(diags_view(diags@) =~= Seq::<DiagV>::empty());
    }
    let mut i: usize = 0;
    while i < f.params.len()
        invariant
            names == call_names(f.params@, args@),
            i <= f.params.len(),
            crate::common::table::keys_unique(bindings@),
            (diags_view(diags@), gen_map(bindings@)) == check_names(
                names.take(i as int),
                f.params@,
                args@,
                call_token@,
                Map::empty(),
            ),
        decreases f.params.len() - i,
    {
        check_name_at(f, args, call_token, false, i, &mut diags, &mut bindings);
        i = i + 1;
    }
    let mut a: usize = 0;
    while a < args.len()
        invariant
            names == call_names(f.params@, args@),
            a <= args.len(),
            crate::common::table::keys_unique(bindings@),
            (diags_view(diags@), gen_map(bindings@)) == check_names(
                names.take(f.params.len() + a),
                f.params@,
                args@,
                call_token@,
                Map::empty(),
            ),
        decreases args.len() - a,
    {
        check_name_at(f, args, call_token, true, a, &mut diags, &mut bindings);
        a = a + 1;
    }
    proof {
        assert(names.take(f.params.len() + args.len()) =~= names);
    }
    let ret = consume_generic_binding(&mut bindings, &f.return_type);
    (diags, ret)
}

} // verus!
