//! The names every module starts with: constants, functions and notes.

use std::sync::Arc;

use vstd::prelude::*;

use crate::analyzer::function::{Function, ParamInfo};
use crate::analyzer::organic_type::{clone_function, lemma_params_view, param_view, params_view, OrganicType, ParamV, TypeV};
use crate::analyzer::value::{constant_type, Accidental, ConstantValue, Note, PitchClass, TermDefn};
use crate::common::address::{NamedVarAddress, ScopeAddress};
use crate::common::table::{key_index, keys_unique, table_get, table_insert};
use crate::text::{digit_char, push_char};

verus! {

/// A string with the characters of `value`.
pub fn own(value: &str) -> (r: String)
    ensures
        r@ == value@,
{
    value.to_string()
}

fn pi(name: &str, typ: OrganicType, has_default: bool) -> (r: ParamInfo)
    ensures
        param_view(&r) == pv(name@, typ@, has_default),
{
    ParamInfo(own(name), typ, has_default)
}

fn list(inner: OrganicType) -> (r: OrganicType)
    ensures
        r@ == list_v(inner@),
{
    OrganicType::List(Box::new(inner))
}

fn generic() -> (r: OrganicType)
    ensures
        r@ == input_v(),
{
    OrganicType::Generic(own("Input"))
}

/// The type of a function of one parameter, `name`, without a default.
fn unary_fn_type(name: &str, typ: OrganicType, return_type: OrganicType) -> (r: OrganicType)
    ensures
        r@ == fn_v(seq![pv(name@, typ@, false)], return_type@),
{
    let params = vec![pi(name, typ, false)];
    let r = OrganicType::Function(Arc::new(Function { params, return_type }));
    proof {
        lemma_params_view(params@);
        assert(params_view(params@) =~= seq![pv(name@, typ@, false)]);
    }
    r
}

/// A parameter's content: its name, its type and whether it has a default.
pub open spec fn pv(name: Seq<char>, typ: TypeV, has_default: bool) -> ParamV {
    ParamV { name, typ, has_default }
}

/// A list of `t`.
pub open spec fn list_v(t: TypeV) -> TypeV {
    TypeV::List(Box::new(t))
}

/// The generic type of the built-in functions.
pub open spec fn input_v() -> TypeV {
    TypeV::Generic("Input"@)
}

/// The type of a function with parameters `ps` that gives `ret`.
pub open spec fn fn_v(ps: Seq<ParamV>, ret: TypeV) -> TypeV {
    TypeV::Function(ps, Box::new(ret))
}

/// The type of the function `f`.
pub open spec fn function_view(f: &Function) -> TypeV {
    fn_v(params_view(f.params@), f.return_type@)
}

/// The built-in functions, by name, in alphabetical order, with their types.
pub open spec fn function_table() -> Seq<(Seq<char>, TypeV)> {
    seq![
        ("absolute"@, fn_v(seq![pv("value"@, TypeV::Number, false)], TypeV::Number)),
        ("all"@, fn_v(seq![pv("values"@, list_v(TypeV::Boolean), false)], TypeV::Boolean)),
        ("all-pass"@, fn_v(seq![pv("feedback"@, TypeV::Number, false), pv("delay"@, TypeV::Number, false), pv("mix"@, TypeV::Number, true)], TypeV::AudioEffect)),
        ("any"@, fn_v(seq![pv("values"@, list_v(TypeV::Boolean), false)], TypeV::Boolean)),
        ("comb"@, fn_v(seq![pv("feedback"@, TypeV::Number, false), pv("delay"@, TypeV::Number, false), pv("mix"@, TypeV::Number, true)], TypeV::AudioEffect)),
        ("delay"@, fn_v(seq![pv("feedback"@, TypeV::Number, false), pv("delay"@, TypeV::Number, false), pv("mix"@, TypeV::Number, true)], TypeV::AudioEffect)),
        ("effect-group"@, fn_v(seq![pv("effects"@, list_v(TypeV::AudioEffect), false), pv("mix"@, TypeV::Number, true)], TypeV::AudioEffect)),
        ("granulate"@, fn_v(seq![pv("shape"@, fn_v(seq![pv("value"@, TypeV::Number, false)], TypeV::Number), true), pv("length"@, TypeV::Number, true), pv("grains"@, TypeV::Number, true), pv("sample"@, TypeV::String, false), pv("effects"@, list_v(TypeV::AudioEffect), true), pv("pan"@, TypeV::Number, true), pv("volume"@, TypeV::Number, true)], TypeV::Number)),
        ("group"@, fn_v(seq![pv("sources"@, list_v(TypeV::Number), false), pv("effects"@, list_v(TypeV::AudioEffect), true), pv("pan"@, TypeV::Number, true), pv("volume"@, TypeV::Number, true)], TypeV::Number)),
        ("hold"@, fn_v(seq![pv("length"@, TypeV::Number, false), pv("value"@, input_v(), false)], input_v())),
        ("if"@, fn_v(seq![pv("is-false"@, input_v(), false), pv("is-true"@, input_v(), false), pv("condition"@, TypeV::Boolean, false)], input_v())),
        ("lfo"@, fn_v(seq![pv("length"@, TypeV::Number, false), pv("to"@, TypeV::Number, false), pv("from"@, TypeV::Number, false)], TypeV::Number)),
        ("limit"@, fn_v(seq![pv("max"@, TypeV::Number, false), pv("min"@, TypeV::Number, false), pv("value"@, TypeV::Number, false)], TypeV::Number)),
        ("low-pass"@, fn_v(seq![pv("threshold"@, TypeV::Number, false)], TypeV::Number)),
        ("max"@, fn_v(seq![pv("values"@, list_v(TypeV::Number), false)], TypeV::Number)),
        ("min"@, fn_v(seq![pv("values"@, list_v(TypeV::Number), false)], TypeV::Number)),
        ("noise"@, fn_v(seq![pv("effects"@, list_v(TypeV::AudioEffect), true), pv("pan"@, TypeV::Number, true), pv("volume"@, TypeV::Number, true)], TypeV::Number)),
        ("none"@, fn_v(seq![pv("values"@, list_v(TypeV::Boolean), false)], TypeV::Boolean)),
        ("oscillator"@, fn_v(seq![pv("waveform"@, fn_v(seq![pv("phase"@, TypeV::Number, false)], TypeV::Number), false), pv("frequency"@, TypeV::Number, false), pv("effects"@, list_v(TypeV::AudioEffect), true), pv("pan"@, TypeV::Number, true), pv("volume"@, TypeV::Number, true)], TypeV::Number)),
        ("random"@, fn_v(seq![pv("type"@, TypeV::RandomArg, true), pv("length"@, TypeV::Number, false), pv("to"@, TypeV::Number, false), pv("from"@, TypeV::Number, false)], TypeV::Number)),
        ("repeat"@, fn_v(seq![pv("repeats"@, TypeV::Number, true), pv("value"@, input_v(), false)], input_v())),
        ("reverb"@, fn_v(seq![pv("length"@, TypeV::Number, false), pv("mix"@, TypeV::Number, true)], TypeV::AudioEffect)),
        ("round"@, fn_v(seq![pv("direction"@, TypeV::RoundArg, true), pv("step"@, TypeV::Number, true), pv("value"@, TypeV::Number, false)], TypeV::Number)),
        ("sample"@, fn_v(seq![pv("file"@, TypeV::String, false), pv("effects"@, list_v(TypeV::AudioEffect), true), pv("pan"@, TypeV::Number, true), pv("volume"@, TypeV::Number, true)], TypeV::Number)),
        ("saw"@, fn_v(seq![pv("frequency"@, TypeV::Number, false), pv("effects"@, list_v(TypeV::AudioEffect), true), pv("pan"@, TypeV::Number, true), pv("volume"@, TypeV::Number, true)], TypeV::Number)),
        ("sequence"@, fn_v(seq![pv("order"@, TypeV::SequenceArg, true), pv("values"@, list_v(input_v()), false)], input_v())),
        ("sine"@, fn_v(seq![pv("frequency"@, TypeV::Number, false), pv("effects"@, list_v(TypeV::AudioEffect), true), pv("pan"@, TypeV::Number, true), pv("volume"@, TypeV::Number, true)], TypeV::Number)),
        ("square"@, fn_v(seq![pv("frequency"@, TypeV::Number, false), pv("effects"@, list_v(TypeV::AudioEffect), true), pv("pan"@, TypeV::Number, true), pv("volume"@, TypeV::Number, true)], TypeV::Number)),
        ("sweep"@, fn_v(seq![pv("length"@, TypeV::Number, false), pv("to"@, TypeV::Number, false), pv("from"@, TypeV::Number, false)], TypeV::Number)),
        ("time"@, fn_v(seq![], TypeV::Number)),
        ("triangle"@, fn_v(seq![pv("frequency"@, TypeV::Number, false), pv("effects"@, list_v(TypeV::AudioEffect), true), pv("pan"@, TypeV::Number, true), pv("volume"@, TypeV::Number, true)], TypeV::Number)),
        ("trigger"@, fn_v(seq![pv("value"@, input_v(), false), pv("condition"@, TypeV::Boolean, false)], input_v())),
    ]
}

/// Appends the built-in function that comes next in [`function_table`].
fn add_fn(fs: &mut Vec<(String, Function)>, name: &str, params: Vec<ParamInfo>, return_type: OrganicType)
    requires
        old(fs)@.len() < function_table().len(),
        name@ == function_table()[old(fs)@.len() as int].0,
        function_table()[old(fs)@.len() as int].1 is Function,
        function_table()[old(fs)@.len() as int].1->Function_0 =~= params@.map_values(|p: ParamInfo| param_view(&p)),
        *function_table()[old(fs)@.len() as int].1->Function_1 == return_type@,
    ensures
        final(fs)@.len() == old(fs)@.len() + 1,
        forall|i: int| 0 <= i < old(fs)@.len() ==> #[trigger] final(fs)@[i] == old(fs)@[i],
        final(fs)@.last().0@ == function_table()[old(fs)@.len() as int].0,
        function_view(&final(fs)@.last().1) == function_table()[old(fs)@.len() as int].1,
{
    proof {
        lemma_params_view(params@);
        assert(params_view(params@) =~= params@.map_values(|p: ParamInfo| param_view(&p)));
    }
    fs.push((own(name), Function { params, return_type }));
}

/// The built-in functions with their types, as [`function_table`] lists
/// them.
pub fn builtin_functions() -> (fs: Vec<(String, Function)>)
    ensures
        fs@.len() == function_table().len(),
        forall|i: int|
            0 <= i < fs@.len() ==> (#[trigger] fs@[i]).0@ == function_table()[i].0 && function_view(&fs@[i].1)
                == function_table()[i].1,
{
    let mut fs: Vec<(String, Function)> = Vec::new();
    add_fn(&mut fs, "absolute", vec![pi("value", OrganicType::Number, false)], OrganicType::Number);
    add_fn(&mut fs, "all", vec![pi("values", list(OrganicType::Boolean), false)], OrganicType::Boolean);
    add_fn(&mut fs, "all-pass", vec![pi("feedback", OrganicType::Number, false), pi("delay", OrganicType::Number, false), pi("mix", OrganicType::Number, true)], OrganicType::AudioEffect);
    add_fn(&mut fs, "any", vec![pi("values", list(OrganicType::Boolean), false)], OrganicType::Boolean);
    add_fn(&mut fs, "comb", vec![pi("feedback", OrganicType::Number, false), pi("delay", OrganicType::Number, false), pi("mix", OrganicType::Number, true)], OrganicType::AudioEffect);
    add_fn(&mut fs, "delay", vec![pi("feedback", OrganicType::Number, false), pi("delay", OrganicType::Number, false), pi("mix", OrganicType::Number, true)], OrganicType::AudioEffect);
    add_fn(&mut fs, "effect-group", vec![pi("effects", list(OrganicType::AudioEffect), false), pi("mix", OrganicType::Number, true)], OrganicType::AudioEffect);
    add_fn(&mut fs, "granulate", vec![pi("shape", unary_fn_type("value", OrganicType::Number, OrganicType::Number), true), pi("length", OrganicType::Number, true), pi("grains", OrganicType::Number, true), pi("sample", OrganicType::String, false), pi("effects", list(OrganicType::AudioEffect), true), pi("pan", OrganicType::Number, true), pi("volume", OrganicType::Number, true)], OrganicType::Number);
    add_fn(&mut fs, "group", vec![pi("sources", list(OrganicType::Number), false), pi("effects", list(OrganicType::AudioEffect), true), pi("pan", OrganicType::Number, true), pi("volume", OrganicType::Number, true)], OrganicType::Number);
    add_fn(&mut fs, "hold", vec![pi("length", OrganicType::Number, false), pi("value", generic(), false)], generic());
    add_fn(&mut fs, "if", vec![pi("is-false", generic(), false), pi("is-true", generic(), false), pi("condition", OrganicType::Boolean, false)], generic());
    add_fn(&mut fs, "lfo", vec![pi("length", OrganicType::Number, false), pi("to", OrganicType::Number, false), pi("from", OrganicType::Number, false)], OrganicType::Number);
    add_fn(&mut fs, "limit", vec![pi("max", OrganicType::Number, false), pi("min", OrganicType::Number, false), pi("value", OrganicType::Number, false)], OrganicType::Number);
    add_fn(&mut fs, "low-pass", vec![pi("threshold", OrganicType::Number, false)], OrganicType::Number);
    add_fn(&mut fs, "max", vec![pi("values", list(OrganicType::Number), false)], OrganicType::Number);
    add_fn(&mut fs, "min", vec![pi("values", list(OrganicType::Number), false)], OrganicType::Number);
    add_fn(&mut fs, "noise", vec![pi("effects", list(OrganicType::AudioEffect), true), pi("pan", OrganicType::Number, true), pi("volume", OrganicType::Number, true)], OrganicType::Number);
    add_fn(&mut fs, "none", vec![pi("values", list(OrganicType::Boolean), false)], OrganicType::Boolean);
    add_fn(&mut fs, "oscillator", vec![pi("waveform", unary_fn_type("phase", OrganicType::Number, OrganicType::Number), false), pi("frequency", OrganicType::Number, false), pi("effects", list(OrganicType::AudioEffect), true), pi("pan", OrganicType::Number, true), pi("volume", OrganicType::Number, true)], OrganicType::Number);
    add_fn(&mut fs, "random", vec![pi("type", OrganicType::RandomArg, true), pi("length", OrganicType::Number, false), pi("to", OrganicType::Number, false), pi("from", OrganicType::Number, false)], OrganicType::Number);
    add_fn(&mut fs, "repeat", vec![pi("repeats", OrganicType::Number, true), pi("value", generic(), false)], generic());
    add_fn(&mut fs, "reverb", vec![pi("length", OrganicType::Number, false), pi("mix", OrganicType::Number, true)], OrganicType::AudioEffect);
    add_fn(&mut fs, "round", vec![pi("direction", OrganicType::RoundArg, true), pi("step", OrganicType::Number, true), pi("value", OrganicType::Number, false)], OrganicType::Number);
    add_fn(&mut fs, "sample", vec![pi("file", OrganicType::String, false), pi("effects", list(OrganicType::AudioEffect), true), pi("pan", OrganicType::Number, true), pi("volume", OrganicType::Number, true)], OrganicType::Number);
    add_fn(&mut fs, "saw", vec![pi("frequency", OrganicType::Number, false), pi("effects", list(OrganicType::AudioEffect), true), pi("pan", OrganicType::Number, true), pi("volume", OrganicType::Number, true)], OrganicType::Number);
    add_fn(&mut fs, "sequence", vec![pi("order", OrganicType::SequenceArg, true), pi("values", list(generic()), false)], generic());
    add_fn(&mut fs, "sine", vec![pi("frequency", OrganicType::Number, false), pi("effects", list(OrganicType::AudioEffect), true), pi("pan", OrganicType::Number, true), pi("volume", OrganicType::Number, true)], OrganicType::Number);
    add_fn(&mut fs, "square", vec![pi("frequency", OrganicType::Number, false), pi("effects", list(OrganicType::AudioEffect), true), pi("pan", OrganicType::Number, true), pi("volume", OrganicType::Number, true)], OrganicType::Number);
    add_fn(&mut fs, "sweep", vec![pi("length", OrganicType::Number, false), pi("to", OrganicType::Number, false), pi("from", OrganicType::Number, false)], OrganicType::Number);
    add_fn(&mut fs, "time", vec![], OrganicType::Number);
    add_fn(&mut fs, "triangle", vec![pi("frequency", OrganicType::Number, false), pi("effects", list(OrganicType::AudioEffect), true), pi("pan", OrganicType::Number, true), pi("volume", OrganicType::Number, true)], OrganicType::Number);
    add_fn(&mut fs, "trigger", vec![pi("value", generic(), false), pi("condition", OrganicType::Boolean, false)], generic());
    fs
}

/// The built-in constants, by name, in alphabetical order.
pub open spec fn constant_table() -> Seq<(Seq<char>, ConstantValue)> {
    seq![
        ("backward"@, ConstantValue::SequenceArg),
        ("down"@, ConstantValue::RoundArg),
        ("e"@, ConstantValue::Number),
        ("false"@, ConstantValue::Boolean(false)),
        ("forward"@, ConstantValue::SequenceArg),
        ("linear"@, ConstantValue::RandomArg),
        ("nearest"@, ConstantValue::RoundArg),
        ("pi"@, ConstantValue::Number),
        ("shuffle"@, ConstantValue::SequenceArg),
        ("step"@, ConstantValue::RandomArg),
        ("tau"@, ConstantValue::Number),
        ("true"@, ConstantValue::Boolean(true)),
        ("up"@, ConstantValue::RoundArg),
    ]
}

/// The built-in constants with their values.
pub fn builtin_constants() -> (cs: Vec<(String, ConstantValue)>)
    ensures
        cs@.len() == constant_table().len(),
        forall|i: int| 0 <= i < cs@.len() ==> (#[trigger] cs@[i]).0@ == constant_table()[i].0 && cs@[i].1 == constant_table()[i].1,
{
    let mut cs: Vec<(String, ConstantValue)> = Vec::new();
    cs.push((own("backward"), ConstantValue::SequenceArg));
    cs.push((own("down"), ConstantValue::RoundArg));
    cs.push((own("e"), ConstantValue::Number));
    cs.push((own("false"), ConstantValue::Boolean(false)));
    cs.push((own("forward"), ConstantValue::SequenceArg));
    cs.push((own("linear"), ConstantValue::RandomArg));
    cs.push((own("nearest"), ConstantValue::RoundArg));
    cs.push((own("pi"), ConstantValue::Number));
    cs.push((own("shuffle"), ConstantValue::SequenceArg));
    cs.push((own("step"), ConstantValue::RandomArg));
    cs.push((own("tau"), ConstantValue::Number));
    cs.push((own("true"), ConstantValue::Boolean(true)));
    cs.push((own("up"), ConstantValue::RoundArg));
    proof {
        assert forall|i: int| 0 <= i < cs@.len() implies (#[trigger] cs@[i]).0@ == constant_table()[i].0 && cs@[i].1 == constant_table()[i].1 by {
        }
    }
    cs
}

/// The letter of a pitch class, in lower case.
pub open spec fn pitch_letter(p: PitchClass) -> char {
    match p {
        PitchClass::A => 'a',
        PitchClass::B => 'b',
        PitchClass::C => 'c',
        PitchClass::D => 'd',
        PitchClass::E => 'e',
        PitchClass::F => 'f',
        PitchClass::G => 'g',
    }
}

/// The suffix of an accidental: `f` for flat, `s` for sharp.
pub open spec fn accidental_suffix(a: Accidental) -> Seq<char> {
    match a {
        Accidental::Flat => seq!['f'],
        Accidental::Natural => seq![],
        Accidental::Sharp => seq!['s'],
    }
}

/// The name a note is bound to, e.g. `as5` for A sharp in octave 5.
pub open spec fn note_name(n: Note) -> Seq<char> {
    seq![pitch_letter(n.pitch_class)] + accidental_suffix(n.accidental) + seq![
        (('0' as u32) + n.octave) as char,
    ]
}

fn pitch_letter_exec(p: PitchClass) -> (c: char)
    ensures
        c == pitch_letter(p),
{
    match p {
        PitchClass::A => 'a',
        PitchClass::B => 'b',
        PitchClass::C => 'c',
        PitchClass::D => 'd',
        PitchClass::E => 'e',
        PitchClass::F => 'f',
        PitchClass::G => 'g',
    }
}

/// The name of `n`.
pub fn note_name_exec(n: Note) -> (r: String)
    requires
        n.octave <= 9,
    ensures
        r@ == note_name(n),
{
    let mut r = String::new();
    push_char(&mut r, pitch_letter_exec(n.pitch_class));
    match n.accidental {
        Accidental::Flat => push_char(&mut r, 'f'),
        Accidental::Natural => {},
        Accidental::Sharp => push_char(&mut r, 's'),
    }
    push_char(&mut r, digit_char(n.octave));
    proof {
        assert(r@ =~= note_name(n));
    }
    r
}

/// The pitch class at place `p` from A (0) to G (6).
pub open spec fn pitch_at(p: int) -> PitchClass {
    if p == 0 {
        PitchClass::A
    } else if p == 1 {
        PitchClass::B
    } else if p == 2 {
        PitchClass::C
    } else if p == 3 {
        PitchClass::D
    } else if p == 4 {
        PitchClass::E
    } else if p == 5 {
        PitchClass::F
    } else {
        PitchClass::G
    }
}

/// The accidental at place `a`: flat (0), natural (1), sharp (2).
pub open spec fn accidental_at(a: int) -> Accidental {
    if a == 0 {
        Accidental::Flat
    } else if a == 1 {
        Accidental::Natural
    } else {
        Accidental::Sharp
    }
}

/// The `i`th note: pitch classes from A to G, within each the flat, natural
/// and sharp, within each the octaves from 0 to 9.
pub open spec fn note_at(i: int) -> Note {
    Note { pitch_class: pitch_at(i / 30), accidental: accidental_at((i % 30) / 10), octave: (i % 10) as u8 }
}

proof fn lemma_note_index(p: int, a: int, o: int)
    requires
        0 <= p < 7,
        0 <= a < 3,
        0 <= o < 10,
    ensures
        (30 * p + 10 * a + o) / 30 == p,
        ((30 * p + 10 * a + o) % 30) / 10 == a,
        (30 * p + 10 * a + o) % 10 == o,
{
    assert((30 * p + 10 * a + o) / 30 == p) by (nonlinear_arith)
        requires
            0 <= p < 7,
            0 <= a < 3,
            0 <= o < 10,
    ;
    assert((30 * p + 10 * a + o) % 30 == 10 * a + o) by (nonlinear_arith)
        requires
            0 <= p < 7,
            0 <= a < 3,
            0 <= o < 10,
    ;
    assert((10 * a + o) / 10 == a) by (nonlinear_arith)
        requires
            0 <= a < 3,
            0 <= o < 10,
    ;
    assert((30 * p + 10 * a + o) % 10 == o) by (nonlinear_arith)
        requires
            0 <= p < 7,
            0 <= a < 3,
            0 <= o < 10,
    ;
}

/// Every note, in the order of [`note_at`], each with its name.
pub fn builtin_notes() -> (ns: Vec<(String, Note)>)
    ensures
        ns@.len() == 210,
        forall|i: int| 0 <= i < ns@.len() ==> (#[trigger] ns@[i]).1 == note_at(i) && ns@[i].0@ == note_name(note_at(i))
            && ns@[i].1.octave <= 9,
{
    let pitches = [
        PitchClass::A,
        PitchClass::B,
        PitchClass::C,
        PitchClass::D,
        PitchClass::E,
        PitchClass::F,
        PitchClass::G,
    ];
    let accidentals = [Accidental::Flat, Accidental::Natural, Accidental::Sharp];
    let mut ns: Vec<(String, Note)> = Vec::new();
    let mut p: usize = 0;
    while p < 7
        invariant
            p <= 7,
            pitches@ == seq![PitchClass::A, PitchClass::B, PitchClass::C, PitchClass::D, PitchClass::E, PitchClass::F, PitchClass::G],
            accidentals@ == seq![Accidental::Flat, Accidental::Natural, Accidental::Sharp],
            ns@.len() == 30 * p,
            forall|i: int| 0 <= i < ns@.len() ==> (#[trigger] ns@[i]).1 == note_at(i) && ns@[i].0@ == note_name(note_at(i))
                && ns@[i].1.octave <= 9,
        decreases 7 - p,
    {
        let mut a: usize = 0;
        while a < 3
            invariant
                p < 7,
                a <= 3,
                pitches@ == seq![PitchClass::A, PitchClass::B, PitchClass::C, PitchClass::D, PitchClass::E, PitchClass::F, PitchClass::G],
                accidentals@ == seq![Accidental::Flat, Accidental::Natural, Accidental::Sharp],
                ns@.len() == 30 * p + 10 * a,
                forall|i: int| 0 <= i < ns@.len() ==> (#[trigger] ns@[i]).1 == note_at(i) && ns@[i].0@ == note_name(note_at(i))
                    && ns@[i].1.octave <= 9,
            decreases 3 - a,
        {
            let mut octave: u8 = 0;
            while octave <= 9
                invariant
                    p < 7,
                    a < 3,
                    octave <= 10,
                    pitches@ == seq![PitchClass::A, PitchClass::B, PitchClass::C, PitchClass::D, PitchClass::E, PitchClass::F, PitchClass::G],
                    accidentals@ == seq![Accidental::Flat, Accidental::Natural, Accidental::Sharp],
                    ns@.len() == 30 * p + 10 * a + octave,
                    forall|i: int| 0 <= i < ns@.len() ==> (#[trigger] ns@[i]).1 == note_at(i) && ns@[i].0@ == note_name(note_at(i))
                        && ns@[i].1.octave <= 9,
                decreases 10 - octave,
            {
                let note = Note { pitch_class: pitches[p], accidental: accidentals[a], octave };
                proof {
                    lemma_note_index(p as int, a as int, octave as int);
                    assert(note == note_at(30 * p + 10 * a + octave));
                }
                let name = note_name_exec(note);
                ns.push((name, note));
                octave = octave + 1;
            }
            a = a + 1;
        }
        p = p + 1;
    }
    ns
}

/// The type of a value of the given constant.
pub fn value_to_type(value: &ConstantValue) -> (r: OrganicType)
    ensures
        r@ == constant_type(value),
{
    value.as_type()
}

/// The names every module starts with: their bindings (all in scope 0),
/// definitions and types.
pub struct BuiltIns {
    pub bindings: Vec<(String, NamedVarAddress)>,
    pub defs: Vec<(NamedVarAddress, TermDefn)>,
    pub vars: Vec<(NamedVarAddress, OrganicType)>,
}

/// Each name bound to an address in scope 0 that carries the same name, with
/// a definition and a type.
pub open spec fn builtins_wf(b: &BuiltIns) -> bool {
    &&& keys_unique(b.bindings@)
    &&& keys_unique(b.defs@)
    &&& keys_unique(b.vars@)
    &&& forall|name: Seq<char>| #[trigger]
        table_get(b.bindings@, name) matches Some(a) ==> a@ == (name, 0u64) && key_index(b.vars@, a@)
            >= 0 && key_index(b.defs@, a@) >= 0
}

/// `m` with each of `entries` bound in turn, a later entry for a name
/// replacing an earlier one.
pub open spec fn bind_all(m: Map<Seq<char>, TypeV>, entries: Seq<(Seq<char>, TypeV)>) -> Map<Seq<char>, TypeV>
    decreases entries.len(),
{
    if entries.len() == 0 {
        m
    } else {
        bind_all(m, entries.drop_last()).insert(entries.last().0, entries.last().1)
    }
}

/// The built-in constants with their types.
pub open spec fn constant_entries() -> Seq<(Seq<char>, TypeV)> {
    constant_table().map_values(|e: (Seq<char>, ConstantValue)| (e.0, constant_type(&e.1)))
}

/// The notes with their type, a number.
pub open spec fn note_entries() -> Seq<(Seq<char>, TypeV)> {
    Seq::new(210, |i: int| (note_name(note_at(i)), TypeV::Number))
}

/// The built-in names with their types: the constants, then the functions,
/// then the notes.
pub open spec fn builtin_types() -> Map<Seq<char>, TypeV> {
    bind_all(bind_all(bind_all(Map::empty(), constant_entries()), function_table()), note_entries())
}

/// `b` binds exactly the names of `m`, each to its address in scope 0,
/// which has the type `m` gives the name; no other address has a type.
pub open spec fn binds_types(b: &BuiltIns, m: Map<Seq<char>, TypeV>) -> bool {
    &&& forall|name: Seq<char>| #[trigger] table_get(b.bindings@, name) is Some <==> m.contains_key(name)
    &&& forall|name: Seq<char>|
        #[trigger] m.contains_key(name) ==> (table_get(b.vars@, (name, 0u64)) matches Some(t) && t@ == m[name])
    &&& forall|q: (Seq<char>, u64)| #[trigger] key_index(b.vars@, q) >= 0 ==> q.1 == 0 && m.contains_key(q.0)
}

/// Binding one more entry of `entries` binds it over the earlier ones.
pub proof fn lemma_bind_all_step(m: Map<Seq<char>, TypeV>, entries: Seq<(Seq<char>, TypeV)>, k: int)
    requires
        0 <= k < entries.len(),
    ensures
        bind_all(m, entries.take(k + 1)) == bind_all(m, entries.take(k)).insert(entries[k].0, entries[k].1),
{
    assert(entries.take(k + 1).drop_last() =~= entries.take(k));
}

/// Binds `name` in scope 0, defined by `defn` and typed `typ`.
fn add_builtin(b: &mut BuiltIns, name: String, defn: TermDefn, typ: OrganicType)
    requires
        builtins_wf(old(b)),
    ensures
        builtins_wf(final(b)),
        table_get(final(b).bindings@, name@) is Some,
        key_index(final(b).vars@, (name@, 0u64)) >= 0,
        table_get(final(b).vars@, (name@, 0u64)) == Some(typ),
        forall|q: Seq<char>| #[trigger] table_get(old(b).bindings@, q) is Some ==> table_get(
            final(b).bindings@,
            q,
        ) is Some,
        forall|m: Map<Seq<char>, TypeV>| #[trigger] binds_types(old(b), m) ==> binds_types(
            final(b),
            m.insert(name@, typ@),
        ),
{
    let addr = NamedVarAddress { name: name.clone(), scope_addr: ScopeAddress { n: 0 } };
    let ghost a = addr@;
    table_insert(&mut b.defs, addr.clone(), defn);
    table_insert(&mut b.vars, addr.clone(), typ);
    let ghost nv = name@;
    let ghost tv = typ@;
    let ghost old_b = *old(b);
    table_insert(&mut b.bindings, name, addr);
    proof {
        crate::common::table::lemma_key_index_bounds(b.vars@, a);
        crate::common::table::lemma_key_index_bounds(b.defs@, a);
        assert forall|m: Map<Seq<char>, TypeV>| #[trigger] binds_types(&old_b, m) implies binds_types(
            b,
            m.insert(nv, tv),
        ) by {
            let m2 = m.insert(nv, tv);
            assert forall|q: (Seq<char>, u64)| #[trigger] key_index(b.vars@, q) >= 0 implies q.1 == 0
                && m2.contains_key(q.0) by {
                if q != a {
                    crate::common::table::lemma_key_index_bounds(b.vars@, q);
                    crate::common::table::lemma_key_index_bounds(old_b.vars@, q);
                    assert(table_get(b.vars@, q) == table_get(old_b.vars@, q));
                }
            }
            assert forall|n: Seq<char>| #[trigger] m2.contains_key(n) implies (table_get(b.vars@, (n, 0u64)) matches Some(
                t,
            ) && t@ == m2[n]) by {
                if n != nv {
                    assert((n, 0u64) != a);
                    assert(table_get(b.vars@, (n, 0u64)) == table_get(old_b.vars@, (n, 0u64)));
                }
            }
        }
    }
}

/// The initial bindings: every built-in constant, function and note, bound
/// in scope 0 under its own name.
pub fn initial_state() -> (b: BuiltIns)
    ensures
        builtins_wf(&b),
        binds_types(&b, builtin_types()),
{
    let mut b = BuiltIns { bindings: Vec::new(), defs: Vec::new(), vars: Vec::new() };
    let ghost m0 = Map::<Seq<char>, TypeV>::empty();
    let ghost ce = constant_entries();
    let ghost fe = function_table();
    let ghost ne = note_entries();
    let mut cs = builtin_constants();
    let ghost cs0 = cs@;
    let mut k: usize = 0;
    proof {
        assert(ce.take(0) =~= Seq::<(Seq<char>, TypeV)>::empty());
        assert forall|q: (Seq<char>, u64)| #[trigger] key_index(b.vars@, q) >= 0 implies false by {
            crate::common::table::lemma_key_index_bounds(b.vars@, q);
        }
        assert(binds_types(&b, bind_all(m0, ce.take(0))));
        assert(cs@ =~= cs0.skip(0));
    }
    while cs.len() > 0
        invariant
            builtins_wf(&b),
            cs0.len() == ce.len(),
            k <= cs0.len(),
            cs@ == cs0.skip(k as int),
            forall|i: int| 0 <= i < cs0.len() ==> (#[trigger] cs0[i]).0@ == ce[i].0 && constant_type(&cs0[i].1)
                == ce[i].1,
            binds_types(&b, bind_all(m0, ce.take(k as int))),
            ce == constant_entries(),
        decreases cs.len(),
    {
        let ghost rb = cs@;
        let (name, value) = cs.remove(0);
        proof {
            assert(rb[0] == cs0[k as int]);
            assert(cs@ =~= cs0.skip(k + 1));
            lemma_bind_all_step(m0, ce, k as int);
        }
        let typ = value_to_type(&value);
        add_builtin(&mut b, name, TermDefn::BuiltinConstant { value }, typ);
        k = k + 1;
    }
    let mut fs = builtin_functions();
    let ghost fs0 = fs@;
    let ghost mc = bind_all(m0, ce);
    let mut j: usize = 0;
    proof {
        assert(ce.take(k as int) =~= ce);
        assert(fe.take(0) =~= Seq::<(Seq<char>, TypeV)>::empty());
        assert(fs@ =~= fs0.skip(0));
    }
    while fs.len() > 0
        invariant
            builtins_wf(&b),
            fs0.len() == fe.len(),
            j <= fs0.len(),
            fs@ == fs0.skip(j as int),
            forall|i: int| 0 <= i < fs0.len() ==> (#[trigger] fs0[i]).0@ == fe[i].0 && function_view(&fs0[i].1)
                == fe[i].1,
            binds_types(&b, bind_all(mc, fe.take(j as int))),
            fe == function_table(),
        decreases fs.len(),
    {
        let ghost rb = fs@;
        let (name, func) = fs.remove(0);
        proof {
            assert(rb[0] == fs0[j as int]);
            assert(fs@ =~= fs0.skip(j + 1));
            lemma_bind_all_step(mc, fe, j as int);
        }
        let copy = clone_function(&func);
        let ghost copy_view = function_view(&copy);
        let typ = OrganicType::Function(Arc::new(copy));
        proof {
            assert(typ@ == copy_view);
        }
        add_builtin(&mut b, name, TermDefn::BuiltinFn { value: func }, typ);
        j = j + 1;
    }
    let mut ns = builtin_notes();
    let ghost ns0 = ns@;
    let ghost mf = bind_all(mc, fe);
    let mut n: usize = 0;
    proof {
        assert(fe.take(j as int) =~= fe);
        assert(ne.take(0) =~= Seq::<(Seq<char>, TypeV)>::empty());
        assert(ns@ =~= ns0.skip(0));
    }
    while ns.len() > 0
        invariant
            builtins_wf(&b),
            ns0.len() == ne.len(),
            n <= ns0.len(),
            ns@ == ns0.skip(n as int),
            forall|i: int| 0 <= i < ns0.len() ==> (#[trigger] ns0[i]).0@ == ne[i].0,
            forall|i: int| 0 <= i < ne.len() ==> (#[trigger] ne[i]).1 == TypeV::Number,
            binds_types(&b, bind_all(mf, ne.take(n as int))),
            ne == note_entries(),
        decreases ns.len(),
    {
        let ghost rb = ns@;
        let (name, note) = ns.remove(0);
        proof {
            assert(rb[0] == ns0[n as int]);
            assert(ns@ =~= ns0.skip(n + 1));
            lemma_bind_all_step(mf, ne, n as int);
        }
        add_builtin(&mut b, name, TermDefn::BuiltinNote { note }, OrganicType::Number);
        n = n + 1;
    }
    proof {
        assert(ne.take(n as int) =~= ne);
    }
    b
}

} // verus!
