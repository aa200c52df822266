//! What a named argument's hover shows.

use vstd::prelude::*;

use crate::analyzer::function::{Function, ParamInfo};
use crate::common::address::NamedVarAddress;
use crate::lsp::builtins::{lookup_builtin_arg, lookup_spec};
use crate::lsp::pretty_type::{pretty_spec, pretty_type};
use crate::text::{owned, push_str};

verus! {

/// The index of the first parameter named `name`, or -1.
pub open spec fn first_param(ps: Seq<ParamInfo>, name: Seq<char>) -> int
    decreases ps.len(),
{
    if ps.len() == 0 {
        -1
    } else if ps[0].0@ == name {
        0
    } else {
        let r = first_param(ps.drop_first(), name);
        if r < 0 {
            -1
        } else {
            r + 1
        }
    }
}

/// `first_param` finds the first parameter of that name.
pub proof fn lemma_first_param(ps: Seq<ParamInfo>, name: Seq<char>)
    ensures
        -1 <= first_param(ps, name) < ps.len(),
        first_param(ps, name) >= 0 ==> ps[first_param(ps, name)].0@ == name,
        forall|j: int| 0 <= j < ps.len() && (first_param(ps, name) < 0 || j < first_param(ps, name)) ==> ps[j].0@ != name,
    decreases ps.len(),
{
    if ps.len() > 0 && ps[0].0@ != name {
        lemma_first_param(ps.drop_first(), name);
        assert forall|j: int| 0 <= j < ps.len() && (first_param(ps, name) < 0 || j < first_param(ps, name)) implies ps[j].0@ != name by {
            if j > 0 {
                assert(ps.drop_first()[j - 1] == ps[j]);
            }
        }
    }
}

/// The hover of the argument `arg_name` of the function at `func_addr`: the
/// parameter and its type in a code block (`(optional)` where it has a
/// default), then, for a built-in function with documentation of the
/// parameter, a rule and that documentation; or `Unknown parameter`.
pub open spec fn named_arg_text(arg_name: Seq<char>, func_addr: NamedVarAddress, func: Function) -> Seq<char> {
    let i = first_param(func.params@, arg_name);
    if i < 0 {
        "Unknown parameter"@
    } else {
        let p = func.params@[i];
        let main = "```scala\n"@ + arg_name + ": "@ + pretty_spec(p.1@) + (if p.2 {
            " (optional)"@
        } else {
            Seq::empty()
        }) + "\n```"@;
        if func_addr.scope_addr.n == 0 {
            match lookup_spec(func_addr.name@, arg_name) {
                Some(info) => main + "\n---\n"@ + info,
                None => main,
            }
        } else {
            main
        }
    }
}

/// Describes a named argument, as [`named_arg_text`] says.
pub fn describe_named_arg(arg_name: &str, func_addr: &NamedVarAddress, func: &Function) -> (r: String)
    ensures
        r@ == named_arg_text(arg_name@, *func_addr, *func),
{
    let name = owned(arg_name);
    proof {
        lemma_first_param(func.params@, arg_name@);
    }
    let mut i: usize = 0;
    while i < func.params.len()
        invariant
            i <= func.params@.len(),
            name@ == arg_name@,
            forall|j: int| 0 <= j < i ==> func.params@[j].0@ != arg_name@,
            -1 <= first_param(func.params@, arg_name@) < func.params@.len(),
            first_param(func.params@, arg_name@) >= 0 ==> func.params@[first_param(func.params@, arg_name@)].0@ == arg_name@,
            forall|j: int| 0 <= j < func.params@.len() && (first_param(func.params@, arg_name@) < 0 || j < first_param(func.params@, arg_name@)) ==> func.params@[j].0@ != arg_name@,
        decreases func.params@.len() - i,
    {
        if func.params[i].0 == name {
            let ParamInfo(_, typ, has_default) = &func.params[i];
            let mut main = owned("```scala\n");
            push_str(&mut main, arg_name);
            push_str(&mut main, ": ");
            push_str(&mut main, pretty_type(typ).as_str());
            if *has_default {
                push_str(&mut main, " (optional)");
            }
            push_str(&mut main, "\n```");
            if func_addr.scope_addr.n == 0 {
                if let Some(info) = lookup_builtin_arg(func_addr.name.as_str(), arg_name) {
                    push_str(&mut main, "\n---\n");
                    push_str(&mut main, info.as_str());
                }
            }
            return main;
        }
        i = i + 1;
    }
    owned("Unknown parameter")
}

} // verus!
