//! Types as shown to the user.

use vstd::prelude::*;

use crate::analyzer::function::{Function, ParamInfo};
use crate::analyzer::organic_type::{lemma_params_view, param_view, params_view, OrganicType, ParamV, TypeV};
use crate::text::{owned, push_str};

verus! {

/// How a type is shown: `effect`, `true/false`, `number`, `text`, `<T>` for
/// a generic, `[T]` for a list, `((a: A, {b: B}) => R)` for a function
/// (parameters with a default in braces), and `???` for an unknown type.
pub open spec fn pretty_spec(t: TypeV) -> Seq<char>
    decreases t,
{
    match t {
        TypeV::AudioEffect => "effect"@,
        TypeV::Boolean => "true/false"@,
        TypeV::Function(ps, r) => "(("@ + params_text(ps) + ") => "@ + pretty_spec(*r) + ")"@,
        TypeV::Generic(name) => "<"@ + name + ">"@,
        TypeV::List(inner) => "["@ + pretty_spec(*inner) + "]"@,
        TypeV::Number => "number"@,
        TypeV::RandomArg => "random-type"@,
        TypeV::RoundArg => "round-direction"@,
        TypeV::SequenceArg => "sequence-order"@,
        TypeV::String => "text"@,
        TypeV::Unknown => "???"@,
    }
}

/// The parameters of a function type, separated by `, `.
pub open spec fn params_text(ps: Seq<ParamV>) -> Seq<char>
    decreases ps,
{
    if ps.len() == 0 {
        Seq::empty()
    } else {
        proof {
            assert(decreases_to!(ps => ps[ps.len() - 1]));
        }
        let one = param_text(ps[ps.len() - 1]);
        if ps.len() == 1 {
            one
        } else {
            params_text(ps.drop_last()) + ", "@ + one
        }
    }
}

/// A parameter: `name: type`, in braces where it has a default.
pub open spec fn param_text(p: ParamV) -> Seq<char>
    decreases p,
{
    let pairing = p.name + ": "@ + pretty_spec(p.typ);
    if p.has_default {
        "{"@ + pairing + "}"@
    } else {
        pairing
    }
}

/// Shows a type as [`pretty_spec`] says.
pub fn pretty_type(typ: &OrganicType) -> (r: String)
    ensures
        r@ == pretty_spec(typ@),
    decreases typ,
{
    match typ {
        OrganicType::AudioEffect => owned("effect"),
        OrganicType::Boolean => owned("true/false"),
        OrganicType::Function(func) => {
            proof {
                assert(decreases_to!(*typ => **func));
            }
            pretty_func(func)
        },
        OrganicType::Generic(name) => {
            let mut r = owned("<");
            push_str(&mut r, name.as_str());
            push_str(&mut r, ">");
            r
        },
        OrganicType::List(inner) => {
            let mut r = owned("[");
            let shown = pretty_type(inner);
            push_str(&mut r, shown.as_str());
            push_str(&mut r, "]");
            r
        },
        OrganicType::Number => owned("number"),
        OrganicType::RandomArg => owned("random-type"),
        OrganicType::RoundArg => owned("round-direction"),
        OrganicType::SequenceArg => owned("sequence-order"),
        OrganicType::String => owned("text"),
        OrganicType::Unknown => owned("???"),
    }
}

/// Shows a function type.
pub fn pretty_func(func: &Function) -> (r: String)
    ensures
        r@ == "(("@ + params_text(params_view(func.params@)) + ") => "@ + pretty_spec(
            func.return_type@,
        ) + ")"@,
    decreases func, 0int,
{
    let ghost ps = params_view(func.params@);
    proof {
        lemma_params_view(func.params@);
    }
    let mut joined = String::new();
    let mut i: usize = 0;
    while i < func.params.len()
        invariant
            i <= func.params@.len(),
            ps == params_view(func.params@),
            ps.len() == func.params@.len(),
            forall|k: int| 0 <= k < func.params@.len() ==> #[trigger] ps[k] == param_view(&func.params@[k]),
            joined@ == params_text(ps.take(i as int)),
        decreases func.params@.len() - i,
    {
        let p: &ParamInfo = &func.params[i];
        proof {
            assert(decreases_to!(*func => func.params));
            assert(decreases_to!(func.params => func.params@));
            assert(decreases_to!(func.params@ => func.params@[i as int]));
            assert(decreases_to!(func.params@[i as int] => func.params@[i as int].1));
        }
        let shown = pretty_type(&p.1);
        let mut pairing = p.0.clone();
        push_str(&mut pairing, ": ");
        push_str(&mut pairing, shown.as_str());
        if i > 0 {
            push_str(&mut joined, ", ");
        }
        if p.2 {
            push_str(&mut joined, "{");
            push_str(&mut joined, pairing.as_str());
            push_str(&mut joined, "}");
        } else {
            push_str(&mut joined, pairing.as_str());
        }
        proof {
            let t = ps.take(i + 1);
            assert(t.drop_last() =~= ps.take(i as int));
            assert(t[t.len() - 1] == ps[i as int]);
            assert(param_text(ps[i as int]) == param_text(param_view(p)));
        }
        i = i + 1;
    }
    proof {
        assert(ps.take(i as int) =~= ps);
    }
    let ret = pretty_type(&func.return_type);
    let mut r = owned("((");
    push_str(&mut r, joined.as_str());
    push_str(&mut r, ") => ");
    push_str(&mut r, ret.as_str());
    push_str(&mut r, ")");
    r
}

} // verus!
