//! Completion of the identifier being typed.

use vstd::prelude::*;

use crate::analyzer::builtins::{constant_table, note_at, note_name};
use crate::analyzer::{constants, note_names};
use crate::lexer::token::TokenType;
use crate::lsp::builtins::{builtin_docs, docs_table, docs_view, param_names, placeholder, BuiltIn};
use crate::lsp::document::{doc_token, names_view, token_at, Document};
use crate::text::{chars_of, owned};

verus! {

/// What kind of thing a completion offers.
#[derive(Clone, Copy, Debug, Eq, PartialEq)]
pub enum CompletionKind {
    Variable,
    Constant,
    Function,
    Field,
}

/// A completion: the text offered, its kind and a short description.
#[derive(Debug)]
pub struct CompletionItem {
    pub label: String,
    pub kind: CompletionKind,
    pub detail: String,
}

/// The views of completions.
pub open spec fn items_view(v: Seq<CompletionItem>) -> Seq<(Seq<char>, CompletionKind, Seq<char>)> {
    v.map_values(|i: CompletionItem| (i.label@, i.kind, i.detail@))
}

/// The names among `names` that start with `wip`, each offered with `kind`
/// and `detail`, in order.
pub open spec fn matching(names: Seq<Seq<char>>, wip: Seq<char>, kind: CompletionKind, detail: Seq<char>) -> Seq<
    (Seq<char>, CompletionKind, Seq<char>),
>
    decreases names.len(),
{
    if names.len() == 0 {
        Seq::empty()
    } else {
        let prev = matching(names.drop_last(), wip, kind, detail);
        if wip.is_prefix_of(names.last()) {
            prev.push((names.last(), kind, detail))
        } else {
            prev
        }
    }
}

/// The parameters among `params` that start with `wip` and are not in
/// `known`, each offered once, as fields; and `known` with them added.
pub open spec fn param_items(params: Seq<Seq<char>>, wip: Seq<char>, known: Set<Seq<char>>) -> (
    Seq<(Seq<char>, CompletionKind, Seq<char>)>,
    Set<Seq<char>>,
)
    decreases params.len(),
{
    if params.len() == 0 {
        (Seq::empty(), known)
    } else {
        let p = params[0];
        if wip.is_prefix_of(p) && !known.contains(p) {
            let (rest, k2) = param_items(params.drop_first(), wip, known.insert(p));
            (seq![(p, CompletionKind::Field, placeholder())] + rest, k2)
        } else {
            param_items(params.drop_first(), wip, known)
        }
    }
}

/// For each documented function in order: its parameters that start with
/// `wip` and were not offered before, then the function itself where its
/// name starts with `wip`.
pub open spec fn doc_items(docs: Seq<(Seq<char>, Seq<Seq<char>>)>, wip: Seq<char>, known: Set<Seq<char>>) -> Seq<
    (Seq<char>, CompletionKind, Seq<char>),
>
    decreases docs.len(),
{
    if docs.len() == 0 {
        Seq::empty()
    } else {
        let (ps, k2) = param_items(docs[0].1, wip, known);
        ps + (if wip.is_prefix_of(docs[0].0) {
            seq![(docs[0].0, CompletionKind::Function, placeholder())]
        } else {
            Seq::empty()
        }) + doc_items(docs.drop_first(), wip, k2)
    }
}

/// The names of the notes, in order.
pub open spec fn note_names_seq() -> Seq<Seq<char>> {
    Seq::new(210, |i: int| note_name(note_at(i)))
}

/// The names of the constants, in order.
pub open spec fn constant_names() -> Seq<Seq<char>> {
    constant_table().map_values(|c: (Seq<char>, crate::analyzer::value::ConstantValue)| c.0)
}

/// The completions of `wip`: the user's variables, the notes, the
/// constants, then the documented functions and their parameters.
pub open spec fn completions_of(wip: Seq<char>, vars: Seq<Seq<char>>) -> Seq<(Seq<char>, CompletionKind, Seq<char>)> {
    matching(vars, wip, CompletionKind::Variable, "User variable"@) + matching(
        note_names_seq(),
        wip,
        CompletionKind::Constant,
        "Pitch"@,
    ) + matching(constant_names(), wip, CompletionKind::Constant, "Built-in"@) + doc_items(
        docs_table(),
        wip,
        Set::empty(),
    )
}

/// The completions at a position: where an identifier ends just before it,
/// those of that identifier.
pub open spec fn completion_spec(doc: &Document, line: int, ch: u32) -> Option<Seq<(Seq<char>, CompletionKind, Seq<char>)>> {
    if ch == 0 {
        None
    } else {
        match doc_token(doc, line, (ch - 1) as u32) {
            Some(t) => match t.token_type {
                TokenType::Identifier(wip) => Some(completions_of(wip@, names_view(doc.last_var_names@))),
                _ => None,
            },
            None => None,
        }
    }
}

/// Whether `s` starts with `p`.
pub fn starts_with(s: &str, p: &str) -> (r: bool)
    ensures
        r == p@.is_prefix_of(s@),
{
    let sv = chars_of(s);
    let pv = chars_of(p);
    if pv.len() > sv.len() {
        return false;
    }
    let mut i: usize = 0;
    while i < pv.len()
        invariant
            sv@ == s@,
            pv@ == p@,
            pv@.len() <= sv@.len(),
            i <= pv@.len(),
            forall|k: int| 0 <= k < i ==> pv@[k] == sv@[k],
        decreases pv@.len() - i,
    {
        if pv[i] != sv[i] {
            return false;
        }
        i = i + 1;
    }
    true
}

/// Adds the names among `names` that start with `wip`, as [`matching`]
/// says.
fn push_matching(out: &mut Vec<CompletionItem>, names: &Vec<String>, wip: &str, kind: CompletionKind, detail: &str)
    ensures
        items_view(final(out)@) == items_view(old(out)@) + matching(names_view(names@), wip@, kind, detail@),
{
    let ghost start = items_view(out@);
    let mut i: usize = 0;
    while i < names.len()
        invariant
            i <= names@.len(),
            items_view(out@) == start + matching(names_view(names@).take(i as int), wip@, kind, detail@),
        decreases names@.len() - i,
    {
        let ghost before = items_view(out@);
        if starts_with(names[i].as_str(), wip) {
            out.push(CompletionItem { label: names[i].clone(), kind, detail: owned(detail) });
            proof {
                assert(items_view(out@) =~= before.push((names@[i as int]@, kind, detail@)));
            }
        }
        proof {
            let t = names_view(names@).take(i + 1);
            assert(t.drop_last() =~= names_view(names@).take(i as int));
            assert(t.last() == names@[i as int]@);
            assert(items_view(out@) =~= start + matching(t, wip@, kind, detail@));
        }
        i = i + 1;
    }
    proof {
        assert(names_view(names@).take(i as int) =~= names_view(names@));
    }
}

/// The views of known names.
pub open spec fn known_set(known: Seq<String>) -> Set<Seq<char>> {
    Set::new(|x: Seq<char>| exists|k: int| 0 <= k < known.len() && #[trigger] known[k]@ == x)
}

/// Whether `known` holds a name equal to `name`.
fn is_known(known: &Vec<String>, name: &String) -> (r: bool)
    ensures
        r == known_set(known@).contains(name@),
{
    let mut i: usize = 0;
    while i < known.len()
        invariant
            i <= known@.len(),
            forall|k: int| 0 <= k < i ==> known@[k]@ != name@,
        decreases known@.len() - i,
    {
        if known[i] == *name {
            proof {
                assert(known@[i as int]@ == name@);
            }
            return true;
        }
        i = i + 1;
    }
    false
}

/// Adds the documented functions and their parameters, as [`doc_items`]
/// says.
fn push_doc_items(out: &mut Vec<CompletionItem>, docs: &Vec<BuiltIn>, wip: &str)
    requires
        forall|i: int| 0 <= i < docs@.len() ==> crate::lsp::builtins::described(#[trigger] docs@[i]),
    ensures
        items_view(final(out)@) == items_view(old(out)@) + doc_items(docs_view(docs@), wip@, Set::empty()),
{
    let ghost total = items_view(out@) + doc_items(docs_view(docs@), wip@, Set::empty());
    let mut known: Vec<String> = Vec::new();
    let mut i: usize = 0;
    proof {
        assert(docs_view(docs@).skip(0) =~= docs_view(docs@));
        assert(known_set(known@) =~= Set::<Seq<char>>::empty());
    }
    while i < docs.len()
        invariant
            i <= docs@.len(),
            forall|q: int| 0 <= q < docs@.len() ==> crate::lsp::builtins::described(#[trigger] docs@[q]),
            total == items_view(out@) + doc_items(docs_view(docs@).skip(i as int), wip@, known_set(known@)),
        decreases docs@.len() - i,
    {
        let b = &docs[i];
        let ghost dv = docs_view(docs@).skip(i as int);
        let ghost ps = param_names(b.parameters@);
        proof {
            assert(dv[0] == crate::lsp::builtins::builtin_view(*b));
            assert(dv.drop_first() =~= docs_view(docs@).skip(i + 1));
        }
        let mut j: usize = 0;
        proof {
            assert(ps.skip(0) =~= ps);
        }
        while j < b.parameters.len()
            invariant
                j <= b.parameters@.len(),
                ps == param_names(b.parameters@),
                crate::lsp::builtins::described(*b),
                dv.len() > 0,
                items_view(out@) + param_items(ps.skip(j as int), wip@, known_set(known@)).0 + (if wip@.is_prefix_of(dv[0].0) {
                    seq![(dv[0].0, CompletionKind::Function, placeholder())]
                } else {
                    Seq::empty()
                }) + doc_items(dv.drop_first(), wip@, param_items(ps.skip(j as int), wip@, known_set(known@)).1) == total,
            decreases b.parameters@.len() - j,
        {
            let name = &b.parameters[j].0;
            let ghost before = items_view(out@);
            let ghost kb = known_set(known@);
            let ghost rest = ps.skip(j as int);
            proof {
                assert(rest[0] == name@);
                assert(rest.drop_first() =~= ps.skip(j + 1));
            }
            if starts_with(name.as_str(), wip) && !is_known(&known, name) {
                let ghost kv = known@;
                known.push(name.clone());
                out.push(CompletionItem { label: name.clone(), kind: CompletionKind::Field, detail: b.parameters[j].1.clone() });
                proof {
                    assert forall|x: Seq<char>| known_set(known@).contains(x) == kb.insert(name@).contains(x) by {
                        if kb.contains(x) {
                            let k = choose|k: int| 0 <= k < kv.len() && #[trigger] kv[k]@ == x;
                            assert(known@[k] == kv[k]);
                        }
                        if x == name@ {
                            assert(known@[kv.len() as int]@ == x);
                        }
                        if known_set(known@).contains(x) {
                            let k = choose|k: int| 0 <= k < known@.len() && #[trigger] known@[k]@ == x;
                            if k < kv.len() {
                                assert(known@[k] == kv[k]);
                            }
                        }
                    }
                    assert(known_set(known@) =~= kb.insert(name@));
                    assert(b.parameters@[j as int].1@ == placeholder());
                    assert(items_view(out@) =~= before.push((name@, CompletionKind::Field, placeholder())));
                }
            }
            j = j + 1;
        }
        proof {
            assert(ps.skip(j as int).len() == 0);
        }
        let ghost before = items_view(out@);
        if starts_with(b.name.as_str(), wip) {
            out.push(CompletionItem { label: b.name.clone(), kind: CompletionKind::Function, detail: b.description.clone() });
            proof {
                assert(items_view(out@) =~= before.push((dv[0].0, CompletionKind::Function, placeholder())));
            }
        }
        proof {
            assert(items_view(out@) + doc_items(docs_view(docs@).skip(i + 1), wip@, known_set(known@)) =~= total);
        }
        i = i + 1;
    }
    proof {
        assert(docs_view(docs@).skip(i as int) =~= Seq::<(Seq<char>, Seq<Seq<char>>)>::empty());
        assert(items_view(out@) + Seq::<(Seq<char>, CompletionKind, Seq<char>)>::empty() =~= items_view(out@));
    }
}

/// The completions at a position, as [`completion_spec`] says.
pub fn completion(doc: &Document, line: u32, ch: u32) -> (r: Option<Vec<CompletionItem>>)
    ensures
        match r {
            Some(v) => completion_spec(doc, line as int, ch) == Some(items_view(v@)),
            None => completion_spec(doc, line as int, ch) is None,
        },
{
    if ch == 0 {
        return None;
    }
    let wip = match token_at(doc, line, ch - 1) {
        Some(t) => match &t.token_type {
            TokenType::Identifier(wip) => wip,
            _ => {
                return None;
            },
        },
        None => {
            return None;
        },
    };
    let mut out: Vec<CompletionItem> = Vec::new();
    push_matching(&mut out, &doc.last_var_names, wip.as_str(), CompletionKind::Variable, "User variable");
    let notes = note_names();
    proof {
        assert(names_view(notes@) =~= note_names_seq());
    }
    push_matching(&mut out, &notes, wip.as_str(), CompletionKind::Constant, "Pitch");
    let consts = constants();
    let mut const_names: Vec<String> = Vec::new();
    let mut i: usize = 0;
    while i < consts.len()
        invariant
            i <= consts@.len(),
            consts@.len() == constant_table().len(),
            forall|k: int| 0 <= k < consts@.len() ==> (#[trigger] consts@[k]).0@ == constant_table()[k].0,
            const_names@.len() == i,
            names_view(const_names@) == constant_names().take(i as int),
        decreases consts@.len() - i,
    {
        let ghost before = const_names@;
        const_names.push(consts[i].0.clone());
        proof {
            assert(const_names@ == before.push(consts@[i as int].0));
            assert(constant_names()[i as int] == constant_table()[i as int].0);
            assert forall|k: int| 0 <= k < i + 1 implies #[trigger] names_view(const_names@)[k] == constant_names().take(i + 1)[k] by {
                if k < i {
                    assert(names_view(before)[k] == constant_names().take(i as int)[k]);
                    assert(const_names@[k] == before[k]);
                }
            }
            assert(names_view(const_names@) =~= constant_names().take(i + 1));
        }
        i = i + 1;
    }
    proof {
        assert(constant_names().take(i as int) =~= constant_names());
    }
    push_matching(&mut out, &const_names, wip.as_str(), CompletionKind::Constant, "Built-in");
    let docs = builtin_docs();
    push_doc_items(&mut out, &docs, wip.as_str());
    proof {
        assert(items_view(out@) =~= completions_of(wip@, names_view(doc.last_var_names@)));
    }
    Some(out)
}

/// Every label `matching` offers starts with `wip`.
proof fn lemma_matching_prefix(names: Seq<Seq<char>>, wip: Seq<char>, kind: CompletionKind, detail: Seq<char>)
    ensures
        forall|i: int| 0 <= i < matching(names, wip, kind, detail).len() ==> wip.is_prefix_of(
            (#[trigger] matching(names, wip, kind, detail)[i]).0,
        ),
    decreases names.len(),
{
    if names.len() > 0 {
        lemma_matching_prefix(names.drop_last(), wip, kind, detail);
        let prev = matching(names.drop_last(), wip, kind, detail);
        let all = matching(names, wip, kind, detail);
        assert forall|i: int| 0 <= i < all.len() implies wip.is_prefix_of((#[trigger] all[i]).0) by {
            if i < prev.len() {
                assert(all[i] == prev[i]);
            }
        }
    }
}

/// Every name among `names` that starts with `wip` is offered, with the
/// kind and detail given.
proof fn lemma_matching_complete(names: Seq<Seq<char>>, wip: Seq<char>, kind: CompletionKind, detail: Seq<char>)
    ensures
        forall|i: int|
            0 <= i < names.len() && wip.is_prefix_of(#[trigger] names[i]) ==> matching(names, wip, kind, detail).contains(
                (names[i], kind, detail),
            ),
    decreases names.len(),
{
    if names.len() > 0 {
        lemma_matching_complete(names.drop_last(), wip, kind, detail);
        let prev = matching(names.drop_last(), wip, kind, detail);
        let all = matching(names, wip, kind, detail);
        assert forall|i: int|
            0 <= i < names.len() && wip.is_prefix_of(#[trigger] names[i]) implies all.contains((names[i], kind, detail)) by {
            if i < names.len() - 1 {
                assert(names.drop_last()[i] == names[i]);
                let j = choose|j: int| 0 <= j < prev.len() && prev[j] == (names[i], kind, detail);
                assert(all[j] == prev[j]);
            } else {
                assert(all[all.len() - 1] == (names[i], kind, detail));
            }
        }
    }
}

/// Every documented function whose name starts with `wip` is offered.
proof fn lemma_doc_items_functions(docs: Seq<(Seq<char>, Seq<Seq<char>>)>, wip: Seq<char>, known: Set<Seq<char>>)
    ensures
        forall|i: int|
            0 <= i < docs.len() && wip.is_prefix_of(#[trigger] docs[i].0) ==> doc_items(docs, wip, known).contains(
                (docs[i].0, CompletionKind::Function, placeholder()),
            ),
    decreases docs.len(),
{
    if docs.len() > 0 {
        let (ps, k2) = param_items(docs[0].1, wip, known);
        let mid: Seq<(Seq<char>, CompletionKind, Seq<char>)> = if wip.is_prefix_of(docs[0].0) {
            seq![(docs[0].0, CompletionKind::Function, placeholder())]
        } else {
            Seq::empty()
        };
        let rest = doc_items(docs.drop_first(), wip, k2);
        lemma_doc_items_functions(docs.drop_first(), wip, k2);
        let all = doc_items(docs, wip, known);
        assert(all == ps + mid + rest);
        assert forall|i: int|
            0 <= i < docs.len() && wip.is_prefix_of(#[trigger] docs[i].0) implies all.contains(
            (docs[i].0, CompletionKind::Function, placeholder()),
        ) by {
            if i == 0 {
                assert(all[ps.len() as int] == mid[0]);
            } else {
                assert(docs.drop_first()[i - 1] == docs[i]);
                let j = choose|j: int| 0 <= j < rest.len() && rest[j] == (docs[i].0, CompletionKind::Function, placeholder());
                assert(all[ps.len() + mid.len() + j] == rest[j]);
            }
        }
    }
}

/// Completion offers everything that starts with the text typed, and
/// nothing else: each of the user's variables, each note name, each
/// built-in constant and each documented function whose name starts with
/// `wip` is among the items (a variable as a user variable, a note as a
/// pitch constant, a constant as a built-in constant, a function as a
/// function), and every item's label starts with `wip`.
pub proof fn law_completion_offers_every_match(wip: Seq<char>, vars: Seq<Seq<char>>)
    ensures
        forall|i: int|
            0 <= i < vars.len() && wip.is_prefix_of(#[trigger] vars[i]) ==> completions_of(wip, vars).contains(
                (vars[i], CompletionKind::Variable, "User variable"@),
            ),
        forall|i: int|
            0 <= i < 210 && wip.is_prefix_of(#[trigger] note_name(note_at(i))) ==> completions_of(wip, vars).contains(
                (note_name(note_at(i)), CompletionKind::Constant, "Pitch"@),
            ),
        forall|i: int|
            0 <= i < constant_table().len() && wip.is_prefix_of(#[trigger] constant_table()[i].0) ==> completions_of(
                wip,
                vars,
            ).contains((constant_table()[i].0, CompletionKind::Constant, "Built-in"@)),
        forall|i: int|
            0 <= i < docs_table().len() && wip.is_prefix_of(#[trigger] docs_table()[i].0) ==> completions_of(
                wip,
                vars,
            ).contains((docs_table()[i].0, CompletionKind::Function, placeholder())),
        forall|i: int|
            0 <= i < completions_of(wip, vars).len() ==> wip.is_prefix_of((#[trigger] completions_of(wip, vars)[i]).0),
{
    let a = matching(vars, wip, CompletionKind::Variable, "User variable"@);
    let b = matching(note_names_seq(), wip, CompletionKind::Constant, "Pitch"@);
    let c = matching(constant_names(), wip, CompletionKind::Constant, "Built-in"@);
    let d = doc_items(docs_table(), wip, Set::empty());
    lemma_matching_complete(vars, wip, CompletionKind::Variable, "User variable"@);
    lemma_matching_complete(note_names_seq(), wip, CompletionKind::Constant, "Pitch"@);
    lemma_matching_complete(constant_names(), wip, CompletionKind::Constant, "Built-in"@);
    lemma_doc_items_functions(docs_table(), wip, Set::empty());
    lemma_completions_start_with_typed(wip, vars);
    let all = completions_of(wip, vars);
    assert(all == a + b + c + d);
    assert forall|i: int|
        0 <= i < vars.len() && wip.is_prefix_of(#[trigger] vars[i]) implies all.contains(
        (vars[i], CompletionKind::Variable, "User variable"@),
    ) by {
        let j = choose|j: int| 0 <= j < a.len() && a[j] == (vars[i], CompletionKind::Variable, "User variable"@);
        assert(all[j] == a[j]);
    }
    assert forall|i: int|
        0 <= i < 210 && wip.is_prefix_of(#[trigger] note_name(note_at(i))) implies all.contains(
        (note_name(note_at(i)), CompletionKind::Constant, "Pitch"@),
    ) by {
        assert(note_names_seq()[i] == note_name(note_at(i)));
        let j = choose|j: int| 0 <= j < b.len() && b[j] == (note_name(note_at(i)), CompletionKind::Constant, "Pitch"@);
        assert(all[a.len() + j] == b[j]);
    }
    assert forall|i: int|
        0 <= i < constant_table().len() && wip.is_prefix_of(#[trigger] constant_table()[i].0) implies all.contains(
        (constant_table()[i].0, CompletionKind::Constant, "Built-in"@),
    ) by {
        assert(constant_names()[i] == constant_table()[i].0);
        let j = choose|j: int| 0 <= j < c.len() && c[j] == (constant_table()[i].0, CompletionKind::Constant, "Built-in"@);
        assert(all[a.len() + b.len() + j] == c[j]);
    }
    assert forall|i: int|
        0 <= i < docs_table().len() && wip.is_prefix_of(#[trigger] docs_table()[i].0) implies all.contains(
        (docs_table()[i].0, CompletionKind::Function, placeholder()),
    ) by {
        let j = choose|j: int| 0 <= j < d.len() && d[j] == (docs_table()[i].0, CompletionKind::Function, placeholder());
        assert(all[a.len() + b.len() + c.len() + j] == d[j]);
    }
}

/// Every label `param_items` offers starts with `wip`.
proof fn lemma_param_items_prefix(params: Seq<Seq<char>>, wip: Seq<char>, known: Set<Seq<char>>)
    ensures
        forall|i: int| 0 <= i < param_items(params, wip, known).0.len() ==> wip.is_prefix_of(
            (#[trigger] param_items(params, wip, known).0[i]).0,
        ),
    decreases params.len(),
{
    if params.len() > 0 {
        let p = params[0];
        if wip.is_prefix_of(p) && !known.contains(p) {
            lemma_param_items_prefix(params.drop_first(), wip, known.insert(p));
            let rest = param_items(params.drop_first(), wip, known.insert(p)).0;
            let all = param_items(params, wip, known).0;
            assert forall|i: int| 0 <= i < all.len() implies wip.is_prefix_of((#[trigger] all[i]).0) by {
                if i > 0 {
                    assert(all[i] == rest[i - 1]);
                }
            }
        } else {
            lemma_param_items_prefix(params.drop_first(), wip, known);
            assert(param_items(params, wip, known) == param_items(params.drop_first(), wip, known));
        }
    }
}

/// Every label `doc_items` offers starts with `wip`.
proof fn lemma_doc_items_prefix(docs: Seq<(Seq<char>, Seq<Seq<char>>)>, wip: Seq<char>, known: Set<Seq<char>>)
    ensures
        forall|i: int| 0 <= i < doc_items(docs, wip, known).len() ==> wip.is_prefix_of(
            (#[trigger] doc_items(docs, wip, known)[i]).0,
        ),
    decreases docs.len(),
{
    if docs.len() > 0 {
        let (ps, k2) = param_items(docs[0].1, wip, known);
        lemma_param_items_prefix(docs[0].1, wip, known);
        lemma_doc_items_prefix(docs.drop_first(), wip, k2);
        let f: Seq<(Seq<char>, CompletionKind, Seq<char>)> = if wip.is_prefix_of(docs[0].0) {
            seq![(docs[0].0, CompletionKind::Function, placeholder())]
        } else {
            Seq::empty()
        };
        let rest = doc_items(docs.drop_first(), wip, k2);
        let all = doc_items(docs, wip, known);
        assert(all == ps + f + rest);
        assert forall|i: int| 0 <= i < all.len() implies wip.is_prefix_of((#[trigger] all[i]).0) by {
            if i < ps.len() {
                assert(all[i] == ps[i]);
            } else if i < ps.len() + f.len() {
                assert(all[i] == f[i - ps.len()]);
            } else {
                assert(all[i] == rest[i - ps.len() - f.len()]);
            }
        }
    }
}

/// Every completion offered for an identifier being typed starts with
/// what has been typed.
pub proof fn lemma_completions_start_with_typed(wip: Seq<char>, vars: Seq<Seq<char>>)
    ensures
        forall|i: int| 0 <= i < completions_of(wip, vars).len() ==> wip.is_prefix_of((#[trigger] completions_of(wip, vars)[i]).0),
{
    let a = matching(vars, wip, CompletionKind::Variable, "User variable"@);
    let b = matching(note_names_seq(), wip, CompletionKind::Constant, "Pitch"@);
    let c = matching(constant_names(), wip, CompletionKind::Constant, "Built-in"@);
    let d = doc_items(docs_table(), wip, Set::empty());
    lemma_matching_prefix(vars, wip, CompletionKind::Variable, "User variable"@);
    lemma_matching_prefix(note_names_seq(), wip, CompletionKind::Constant, "Pitch"@);
    lemma_matching_prefix(constant_names(), wip, CompletionKind::Constant, "Built-in"@);
    lemma_doc_items_prefix(docs_table(), wip, Set::empty());
    let all = completions_of(wip, vars);
    assert(all == a + b + c + d);
    assert forall|i: int| 0 <= i < all.len() implies wip.is_prefix_of((#[trigger] all[i]).0) by {
        if i < a.len() {
            assert(all[i] == a[i]);
        } else if i < a.len() + b.len() {
            assert(all[i] == b[i - a.len()]);
        } else if i < a.len() + b.len() + c.len() {
            assert(all[i] == c[i - a.len() - b.len()]);
        } else {
            assert(all[i] == d[i - a.len() - b.len() - c.len()]);
        }
    }
}

} // verus!
