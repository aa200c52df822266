//! Documentation of the built-in functions and their parameters.

use vstd::prelude::*;

use crate::text::owned;

verus! {

/// A built-in function's documentation: its name, a description, and a
/// description of each parameter.
#[derive(Debug)]
pub struct BuiltIn {
    pub name: String,
    pub description: String,
    pub parameters: Vec<(String, String)>,
}

/// The description given to each function and parameter (not written yet).
pub open spec fn placeholder() -> Seq<char> {
    "FILL_IN"@
}

/// The documented functions in alphabetical order, each with its
/// parameters.
pub open spec fn docs_table() -> Seq<(Seq<char>, Seq<Seq<char>>)> {
    seq![
        ("absolute"@, seq!["value"@]),
        ("all"@, seq!["values"@]),
        ("all-pass"@, seq!["feedback"@, "delay"@, "mix"@]),
        ("any"@, seq!["values"@]),
        ("comb"@, seq!["feedback"@, "delay"@, "mix"@]),
        ("delay"@, seq!["feedback"@, "delay"@, "mix"@]),
        ("effect-group"@, seq!["effects"@, "mix"@]),
        ("granulate"@, seq!["shape"@, "length"@, "grains"@, "sample"@, "effects"@, "pan"@, "volume"@]),
        ("group"@, seq!["sources"@, "effects"@, "pan"@, "volume"@]),
        ("hold"@, seq!["length"@, "value"@]),
        ("if"@, seq!["is-false"@, "is-true"@, "condition"@]),
        ("lfo"@, seq!["length"@, "to"@, "from"@]),
        ("limit"@, seq!["max"@, "min"@, "value"@]),
        ("low-pass"@, seq!["threshold"@]),
        ("max"@, seq!["values"@]),
        ("min"@, seq!["values"@]),
        ("noise"@, seq!["effects"@, "pan"@, "volume"@]),
        ("none"@, seq!["values"@]),
        ("oscillator"@, seq!["waveform"@, "frequency"@, "effects"@, "pan"@, "volume"@]),
        ("random"@, seq!["type"@, "length"@, "to"@, "from"@]),
        ("repeat"@, seq!["repeats"@, "value"@]),
        ("reverb"@, seq!["length"@, "mix"@]),
        ("round"@, seq!["direction"@, "step"@, "value"@]),
        ("sample"@, seq!["file"@, "effects"@, "pan"@, "volume"@]),
        ("saw"@, seq!["frequency"@, "effects"@, "pan"@, "volume"@]),
        ("sequence"@, seq!["order"@, "values"@]),
        ("sine"@, seq!["frequency"@, "effects"@, "pan"@, "volume"@]),
        ("square"@, seq!["frequency"@, "effects"@, "pan"@, "volume"@]),
        ("sweep"@, seq!["length"@, "to"@, "from"@]),
        ("time"@, Seq::<Seq<char>>::empty()),
        ("triangle"@, seq!["frequency"@, "effects"@, "pan"@, "volume"@]),
        ("trigger"@, seq!["value"@, "condition"@]),
    ]
}

/// The names of the documented parameters.
pub open spec fn param_names(ps: Seq<(String, String)>) -> Seq<Seq<char>> {
    ps.map_values(|p: (String, String)| p.0@)
}

/// The views of a documentation entry.
pub open spec fn builtin_view(b: BuiltIn) -> (Seq<char>, Seq<Seq<char>>) {
    (b.name@, param_names(b.parameters@))
}

/// The views of the documentation entries.
pub open spec fn docs_view(docs: Seq<BuiltIn>) -> Seq<(Seq<char>, Seq<Seq<char>>)> {
    docs.map_values(|b: BuiltIn| builtin_view(b))
}

/// Whether every description of `b` is the placeholder.
pub open spec fn described(b: BuiltIn) -> bool {
    &&& b.description@ == placeholder()
    &&& forall|i: int| 0 <= i < b.parameters@.len() ==> (#[trigger] b.parameters@[i]).1@ == placeholder()
}

fn builtin(name: &str, params: Vec<&str>) -> (r: BuiltIn)
    ensures
        r.name@ == name@,
        r.parameters@.len() == params@.len(),
        forall|i: int| 0 <= i < params@.len() ==> (#[trigger] r.parameters@[i]).0@ == params@[i]@,
        described(r),
{
    let mut parameters: Vec<(String, String)> = Vec::new();
    let mut i: usize = 0;
    while i < params.len()
        invariant
            i <= params@.len(),
            parameters@.len() == i,
            forall|k: int| 0 <= k < i ==> (#[trigger] parameters@[k]).0@ == params@[k]@ && parameters@[k].1@ == placeholder(),
        decreases params@.len() - i,
    {
        parameters.push((owned(params[i]), owned("FILL_IN")));
        i = i + 1;
    }
    BuiltIn { name: owned(name), description: owned("FILL_IN"), parameters }
}

/// The documentation of every built-in function, as [`docs_table`] lists
/// them, every description the placeholder.
pub fn builtin_docs() -> (docs: Vec<BuiltIn>)
    ensures
        docs_view(docs@) == docs_table(),
        forall|i: int| 0 <= i < docs@.len() ==> described(#[trigger] docs@[i]),
{
    let mut docs: Vec<BuiltIn> = Vec::new();
    docs.push(builtin("absolute", vec!["value"]));
    docs.push(builtin("all", vec!["values"]));
    docs.push(builtin("all-pass", vec!["feedback", "delay", "mix"]));
    docs.push(builtin("any", vec!["values"]));
    docs.push(builtin("comb", vec!["feedback", "delay", "mix"]));
    docs.push(builtin("delay", vec!["feedback", "delay", "mix"]));
    docs.push(builtin("effect-group", vec!["effects", "mix"]));
    docs.push(builtin("granulate", vec!["shape", "length", "grains", "sample", "effects", "pan", "volume"]));
    docs.push(builtin("group", vec!["sources", "effects", "pan", "volume"]));
    docs.push(builtin("hold", vec!["length", "value"]));
    docs.push(builtin("if", vec!["is-false", "is-true", "condition"]));
    docs.push(builtin("lfo", vec!["length", "to", "from"]));
    docs.push(builtin("limit", vec!["max", "min", "value"]));
    docs.push(builtin("low-pass", vec!["threshold"]));
    docs.push(builtin("max", vec!["values"]));
    docs.push(builtin("min", vec!["values"]));
    docs.push(builtin("noise", vec!["effects", "pan", "volume"]));
    docs.push(builtin("none", vec!["values"]));
    docs.push(builtin("oscillator", vec!["waveform", "frequency", "effects", "pan", "volume"]));
    docs.push(builtin("random", vec!["type", "length", "to", "from"]));
    docs.push(builtin("repeat", vec!["repeats", "value"]));
    docs.push(builtin("reverb", vec!["length", "mix"]));
    docs.push(builtin("round", vec!["direction", "step", "value"]));
    docs.push(builtin("sample", vec!["file", "effects", "pan", "volume"]));
    docs.push(builtin("saw", vec!["frequency", "effects", "pan", "volume"]));
    docs.push(builtin("sequence", vec!["order", "values"]));
    docs.push(builtin("sine", vec!["frequency", "effects", "pan", "volume"]));
    docs.push(builtin("square", vec!["frequency", "effects", "pan", "volume"]));
    docs.push(builtin("sweep", vec!["length", "to", "from"]));
    docs.push(builtin("time", vec![]));
    docs.push(builtin("triangle", vec!["frequency", "effects", "pan", "volume"]));
    docs.push(builtin("trigger", vec!["value", "condition"]));
    proof {
        assert forall|i: int| 0 <= i < docs@.len() implies #[trigger] docs_view(docs@)[i] == docs_table()[i] by {
            assert(param_names(docs@[i].parameters@) =~= docs_table()[i].1);
        }
        assert(docs_view(docs@) =~= docs_table());
    }
    docs
}

/// The description of the parameter `param_name` of the built-in function
/// `func_name`, if both are documented.
pub open spec fn lookup_spec(func_name: Seq<char>, param_name: Seq<char>) -> Option<Seq<char>> {
    if exists|i: int| 0 <= i < docs_table().len() && #[trigger] docs_table()[i].0 == func_name && docs_table()[i].1.contains(param_name) {
        Some(placeholder())
    } else {
        None
    }
}

/// Looks up a parameter's description, as [`lookup_spec`] says.
pub fn lookup_builtin_arg(func_name: &str, param_name: &str) -> (r: Option<String>)
    ensures
        match r {
            Some(d) => lookup_spec(func_name@, param_name@) == Some(d@),
            None => lookup_spec(func_name@, param_name@) is None,
        },
{
    let docs = builtin_docs();
    let fname = owned(func_name);
    let pname = owned(param_name);
    let ghost view = docs_view(docs@);
    let mut i: usize = 0;
    while i < docs.len()
        invariant
            i <= docs@.len(),
            view == docs_view(docs@),
            view == docs_table(),
            forall|k: int| 0 <= k < docs@.len() ==> described(#[trigger] docs@[k]),
            fname@ == func_name@,
            pname@ == param_name@,
            forall|k: int| 0 <= k < i ==> !(#[trigger] docs_table()[k].0 == func_name@ && docs_table()[k].1.contains(param_name@)),
        decreases docs@.len() - i,
    {
        let b = &docs[i];
        proof {
            assert(view[i as int] == builtin_view(*b));
        }
        if b.name == fname {
            let mut j: usize = 0;
            #[verifier::loop_isolation(false)]
            while j < b.parameters.len()
                invariant
                    j <= b.parameters@.len(),
                    pname@ == param_name@,
                    forall|q: int| 0 <= q < j ==> b.parameters@[q].0@ != param_name@,
                decreases b.parameters@.len() - j,
            {
                if b.parameters[j].0 == pname {
                    proof {
                        assert(param_names(b.parameters@)[j as int] == param_name@);
                        assert(view[i as int].1 == param_names(b.parameters@));
                        assert(docs_table()[i as int].1.contains(param_name@));
                        assert(described(docs@[i as int]));
                        assert(view[i as int].0 == b.name@);
                        assert(docs_table()[i as int].0 == func_name@);
                        assert(b.parameters@[j as int].1@ == placeholder());
                        assert(lookup_spec(func_name@, param_name@) == Some(placeholder()));
                    }
                    return Some(b.parameters[j].1.clone());
                }
                j = j + 1;
            }
            proof {
                assert(!docs_table()[i as int].1.contains(param_name@)) by {
                    let ps = param_names(b.parameters@);
                    assert forall|q: int| 0 <= q < ps.len() implies ps[q] != param_name@ by {
                        assert(ps[q] == b.parameters@[q].0@);
                    }
                }
            }
        }
        i = i + 1;
    }
    None
}

} // verus!
