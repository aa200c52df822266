//! Quick fixes offered for the diagnostics a client shows.

use vstd::prelude::*;

use crate::analyzer::value::TermDefn;
use crate::lexer::token::{Token, TokenType};
use crate::lsp::common::token_range_opt;
use crate::lsp::diagnostics::{code_from_number, code_number_spec, loc_fits, range3, DiagnosticCode, LspRange};
use crate::lsp::document::{doc_entity, doc_info, entity_at, info_at, Document, Entity};
use crate::lexer::bytes::{byte_off, char_width_exec, lemma_byte_off_split, lemma_byte_off_step};
use crate::lsp::diagnostics::LspPosition;
use crate::lsp::document::{doc_token, token_at};
use crate::lsp::kebab_cased::{kebab_cased, kebab_spec};
use crate::lsp::miniformat::{expr_text, render_expr};
use crate::parser::ast::{Expr, Statement};
use crate::common::table::ViewEq;
use crate::text::{chars_of, owned, push_str, string_from_chars};

verus! {

/// A diagnostic as a client sends it back: its range and its code, if any.
#[derive(Clone, Copy, Debug, Eq, PartialEq)]
pub struct ClientDiagnostic {
    pub range: LspRange,
    pub code: Option<i32>,
}

/// A quick fix: its title, the index of the diagnostic it fixes, whether it
/// is the preferred fix, and its edits (a range and the text to put there).
#[derive(Debug)]
pub struct QuickFix {
    pub title: String,
    pub diagnostic: usize,
    pub is_preferred: bool,
    pub edits: Vec<(LspRange, String)>,
}

/// The kind of a refactoring.
#[derive(Clone, Copy, Debug, PartialEq, Eq, Structural)]
pub enum RefactorKind {
    /// Puts a variable's initial value in place of one of its usages.
    Inline,
    /// Puts a selection into a new variable and uses that in its place.
    Extract,
}

/// A refactoring: its title, its kind and its edits (a range and the text
/// to put there).
#[derive(Debug)]
pub struct Refactor {
    pub title: String,
    pub kind: RefactorKind,
    pub edits: Vec<(LspRange, String)>,
}

/// The views of refactorings: kind, title and edits.
pub open spec fn refactors_view(v: Seq<Refactor>) -> Seq<(RefactorKind, Seq<char>, Seq<(LspRange, Seq<char>)>)> {
    v.map_values(|f: Refactor| (f.kind, f.title@, edit_views(f.edits@)))
}

/// The index of the first top-level statement from `k` on that declares a
/// variable whose name was written at line `l`, column `c`.
pub open spec fn decl_from(ss: Seq<Statement>, l: u32, c: u32, k: int) -> Option<int>
    decreases ss.len() - k,
{
    if k < 0 || k >= ss.len() {
        None
    } else if ss[k] matches Statement::VariableDecl(vd) && vd.name.token.source_loc.line == l
        && vd.name.token.source_loc.column == c {
        Some(k)
    } else {
        decl_from(ss, l, c, k + 1)
    }
}

/// The text that stands in for a usage of a variable whose initial value is
/// `e`: the value laid out on one line of 110 columns, in parentheses where
/// it is an operation (so that it binds as the variable did).
pub open spec fn inline_text(e: Expr) -> Seq<char> {
    if e is Op {
        "("@ + expr_text(e, 108) + ")"@
    } else {
        expr_text(e, 110)
    }
}

/// The edit that inlines the variable used at the cursor `range` (an empty
/// range): where a user-defined variable is used there (not where it is
/// defined) and a top-level declaration defines it, the usage's token is
/// replaced by the declaration's initial value (see [`inline_text`]).
pub open spec fn inline_edit(doc: &Document, range: LspRange) -> Option<(LspRange, Seq<char>)> {
    let p = range.start;
    if range.start != range.end {
        None
    } else {
        match doc_entity(doc, p.line as int, p.character) {
            Some(Entity::LValue { addr }) => match doc_info(doc, addr@) {
                Some(info) => match info.definition {
                    TermDefn::UserDefined { token: dt } => match doc_token(doc, p.line as int, p.character) {
                        Some(ut) => if (ut.source_loc.line != dt.source_loc.line || ut.source_loc.column
                            != dt.source_loc.column) && loc_fits(
                            ut.source_loc.line,
                            ut.source_loc.column,
                            ut.source_loc.length,
                        ) {
                            match decl_from(doc.ast.statements@, dt.source_loc.line, dt.source_loc.column, 0) {
                                Some(i) => Some(
                                    (
                                        range3(ut.source_loc.line, ut.source_loc.column, ut.source_loc.length),
                                        inline_text(doc.ast.statements@[i]->VariableDecl_0.init),
                                    ),
                                ),
                                None => None,
                            }
                        } else {
                            None
                        },
                        None => None,
                    },
                    _ => None,
                },
                None => None,
            },
            _ => None,
        }
    }
}

/// At a cursor (an empty range), the refactorings offered: inlining the
/// variable used there where [`inline_edit`] gives an edit, titled
/// `Inline variable definition`, else none. `None` for a selection.
pub fn actions_under_cursor(doc: &Document, range: LspRange) -> (r: Option<Vec<Refactor>>)
    ensures
        r is Some == (range.start == range.end),
        r matches Some(v) ==> refactors_view(v@) == match inline_edit(doc, range) {
            Some(e) => seq![(RefactorKind::Inline, "Inline variable definition"@, seq![e])],
            None => Seq::empty(),
        },
{
    if range.start != range.end {
        return None;
    }
    let mut out: Vec<Refactor> = Vec::new();
    let edit = inline_at(doc, range);
    match edit {
        Some(e) => {
            let ghost ev = (e.0, e.1@);
            let mut edits: Vec<(LspRange, String)> = Vec::new();
            edits.push(e);
            proof {
                assert(edit_views(edits@) =~= seq![ev]);
            }
            out.push(Refactor { title: owned("Inline variable definition"), kind: RefactorKind::Inline, edits });
            proof {
                assert(refactors_view(out@) =~= seq![(RefactorKind::Inline, "Inline variable definition"@, seq![ev])]);
            }
        },
        None => {
            proof {
                assert(refactors_view(out@) =~= Seq::empty());
            }
        },
    }
    Some(out)
}

/// The first top-level declaration from `k` on whose name was written at
/// line `l`, column `c`, as [`decl_from`] says.
fn find_decl(ss: &Vec<Statement>, l: u32, c: u32) -> (r: Option<usize>)
    ensures
        match r {
            Some(i) => decl_from(ss@, l, c, 0) == Some(i as int),
            None => decl_from(ss@, l, c, 0) is None,
        },
{
    let mut k: usize = 0;
    while k < ss.len()
        invariant
            k <= ss@.len(),
            decl_from(ss@, l, c, 0) == decl_from(ss@, l, c, k as int),
        decreases ss@.len() - k,
    {
        if let Statement::VariableDecl(vd) = &ss[k] {
            if vd.name.token.source_loc.line == l && vd.name.token.source_loc.column == c {
                return Some(k);
            }
        }
        k = k + 1;
    }
    None
}

/// What [`decl_from`] finds is a declaration from `k` on with that name's
/// place.
proof fn lemma_decl_from(ss: Seq<Statement>, l: u32, c: u32, k: int)
    requires
        decl_from(ss, l, c, k) is Some,
    ensures
        k <= decl_from(ss, l, c, k)->0 < ss.len(),
        ss[decl_from(ss, l, c, k)->0] matches Statement::VariableDecl(vd) && vd.name.token.source_loc.line == l
            && vd.name.token.source_loc.column == c,
    decreases ss.len() - k,
{
    if !(ss[k] matches Statement::VariableDecl(vd) && vd.name.token.source_loc.line == l
        && vd.name.token.source_loc.column == c) {
        lemma_decl_from(ss, l, c, k + 1);
    }
}

/// The edit of [`inline_edit`].
fn inline_at(doc: &Document, range: LspRange) -> (r: Option<(LspRange, String)>)
    requires
        range.start == range.end,
    ensures
        match r {
            Some(e) => inline_edit(doc, range) == Some((e.0, e.1@)),
            None => inline_edit(doc, range) is None,
        },
{
    let p = range.start;
    let addr = match entity_at(doc, p.line, p.character) {
        Some(Entity::LValue { addr }) => addr,
        _ => {
            return None;
        },
    };
    let info = match info_at(doc, addr) {
        Some(info) => info,
        None => {
            return None;
        },
    };
    let dt = match &info.definition {
        TermDefn::UserDefined { token } => token,
        _ => {
            return None;
        },
    };
    let ut = match token_at(doc, p.line, p.character) {
        Some(t) => t,
        None => {
            return None;
        },
    };
    if ut.source_loc.line == dt.source_loc.line && ut.source_loc.column == dt.source_loc.column {
        return None;
    }
    let ur = match token_range_opt(ut) {
        Some(r) => r,
        None => {
            return None;
        },
    };
    let found = find_decl(&doc.ast.statements, dt.source_loc.line, dt.source_loc.column);
    proof {
        if found is Some {
            lemma_decl_from(doc.ast.statements@, dt.source_loc.line, dt.source_loc.column, 0);
        }
    }
    match found {
        Some(i) => match &doc.ast.statements[i] {
            Statement::VariableDecl(vd) => {
                let text = match &vd.init {
                    Expr::Op { .. } => {
                        let mut t = owned("(");
                        let inner = render_expr(&vd.init, 108);
                        push_str(&mut t, inner.as_str());
                        push_str(&mut t, ")");
                        t
                    },
                    _ => render_expr(&vd.init, 110),
                };
                Some((ur, text))
            },
            _ => {
                proof {
                    assert(false);
                }
                None
            },
        },
        None => None,
    }
}

/// The name a selection is put into.
pub open spec fn extract_name() -> Seq<char> {
    "new-var"@
}

/// Whether no variable of the document is named `name`.
pub open spec fn name_unused(doc: &Document, name: Seq<char>) -> bool {
    forall|i: int| 0 <= i < doc.infos@.len() ==> (#[trigger] doc.infos@[i]).0.name@ != name
}

/// The index of the character that starts at byte offset `b` of `s` (the
/// length where `b` is the offset of its end), if one does.
pub open spec fn byte_index(s: Seq<char>, b: int) -> Option<int> {
    if exists|i: int| 0 <= i <= s.len() && #[trigger] byte_off(s, i) == b {
        Some(choose|i: int| 0 <= i <= s.len() && #[trigger] byte_off(s, i) == b)
    } else {
        None
    }
}

/// The edits that put the selection `range` into a new variable: where the
/// selection lies on one line, begins where a token begins and ends where
/// one ends, and no variable is named [`extract_name`] yet, a declaration
/// of that name with the selected text as its value is put on a line of its
/// own before the selection's line, and the selection is replaced by the
/// name.
pub open spec fn extract_edits(doc: &Document, range: LspRange) -> Option<Seq<(LspRange, Seq<char>)>> {
    let s = range.start;
    let e = range.end;
    if s.line == e.line && s.character < e.character && name_unused(doc, extract_name()) {
        match (doc_token(doc, s.line as int, s.character), doc_token(doc, s.line as int, (e.character - 1) as u32)) {
            (Some(f), Some(l)) => if f.source_loc.column - 1 == s.character && l.source_loc.column - 1
                + l.source_loc.length == e.character {
                match (
                    byte_index(doc.contents@, f.source_loc.pos as int),
                    byte_index(doc.contents@, l.source_loc.pos + l.source_loc.length),
                ) {
                    (Some(i), Some(j)) => if i <= j {
                        Some(
                            seq![
                                (
                                    LspRange {
                                        start: LspPosition { line: s.line, character: 0 },
                                        end: LspPosition { line: s.line, character: 0 },
                                    },
                                    extract_name() + " = "@ + doc.contents@.subrange(i, j) + "\n"@,
                                ),
                                (range, extract_name()),
                            ],
                        )
                    } else {
                        None
                    },
                    _ => None,
                }
            } else {
                None
            },
            _ => None,
        }
    } else {
        None
    }
}

/// For a selection (a non-empty range), the refactorings offered: putting
/// it into a new variable where [`extract_edits`] gives edits, titled
/// `Extract into a new variable`, else none. `None` at a cursor.
pub fn actions_in_selection(doc: &Document, range: LspRange) -> (r: Option<Vec<Refactor>>)
    ensures
        r is Some == (range.start != range.end),
        r matches Some(v) ==> refactors_view(v@) == match extract_edits(doc, range) {
            Some(es) => seq![(RefactorKind::Extract, "Extract into a new variable"@, es)],
            None => Seq::empty(),
        },
{
    if range.start == range.end {
        return None;
    }
    let mut out: Vec<Refactor> = Vec::new();
    match extract_at(doc, range) {
        Some(edits) => {
            let ghost ev = edit_views(edits@);
            out.push(Refactor { title: owned("Extract into a new variable"), kind: RefactorKind::Extract, edits });
            proof {
                assert(refactors_view(out@) =~= seq![(RefactorKind::Extract, "Extract into a new variable"@, ev)]);
            }
        },
        None => {
            proof {
                assert(refactors_view(out@) =~= Seq::empty());
            }
        },
    }
    Some(out)
}

/// Whether no variable of the document is named `new-var`.
fn extract_name_unused(doc: &Document) -> (r: bool)
    ensures
        r == name_unused(doc, extract_name()),
{
    let name = owned("new-var");
    let mut k: usize = 0;
    while k < doc.infos.len()
        invariant
            k <= doc.infos@.len(),
            name@ == extract_name(),
            forall|i: int| 0 <= i < k ==> (#[trigger] doc.infos@[i]).0.name@ != extract_name(),
        decreases doc.infos@.len() - k,
    {
        if doc.infos[k].0.name.view_eq(&name) {
            return false;
        }
        k = k + 1;
    }
    true
}

/// The index of the character of `v` that starts at byte offset `b`, as
/// [`byte_index`] says.
fn char_index_of_byte(v: &Vec<char>, b: u64) -> (r: Option<usize>)
    requires
        b <= 0x2_0000_0000,
    ensures
        match r {
            Some(i) => byte_index(v@, b as int) == Some(i as int),
            None => byte_index(v@, b as int) is None,
        },
{
    let mut k: usize = 0;
    let mut off: u64 = 0;
    proof {
        assert(v@.take(0) =~= Seq::<char>::empty());
    }
    while k < v.len() && off < b
        invariant
            k <= v@.len(),
            off == byte_off(v@, k as int),
            b <= 0x2_0000_0000,
            forall|i: int| 0 <= i < k ==> #[trigger] byte_off(v@, i) < b,
        decreases v@.len() - k,
    {
        proof {
            lemma_byte_off_step(v@, k as int);
            assert forall|i: int| 0 <= i < k + 1 implies #[trigger] byte_off(v@, i) < b by {
                if i < k {
                } else {
                    assert(i == k);
                }
            }
        }
        off = off + char_width_exec(v[k]) as u64;
        k = k + 1;
    }
    if off == b {
        proof {
            assert(byte_off(v@, k as int) == b);
            let c = choose|i: int| 0 <= i <= v@.len() && #[trigger] byte_off(v@, i) == b;
            if c < k {
                lemma_byte_off_split(v@, c, k as int);
            } else if c > k {
                lemma_byte_off_split(v@, k as int, c);
            }
        }
        Some(k)
    } else {
        proof {
            assert forall|i: int| 0 <= i <= v@.len() implies #[trigger] byte_off(v@, i) != b by {
                if i < k {
                } else if i > k {
                    lemma_byte_off_split(v@, k as int, i);
                    if k == v@.len() {
                    }
                }
            }
        }
        None
    }
}

/// The edits of [`extract_edits`].
fn extract_at(doc: &Document, range: LspRange) -> (r: Option<Vec<(LspRange, String)>>)
    requires
        range.start != range.end,
    ensures
        match r {
            Some(es) => extract_edits(doc, range) == Some(edit_views(es@)),
            None => extract_edits(doc, range) is None,
        },
{
    let s = range.start;
    let e = range.end;
    if !(s.line == e.line && s.character < e.character) {
        return None;
    }
    if !extract_name_unused(doc) {
        return None;
    }
    let f = match token_at(doc, s.line, s.character) {
        Some(t) => t,
        None => {
            return None;
        },
    };
    let l = match token_at(doc, s.line, e.character - 1) {
        Some(t) => t,
        None => {
            return None;
        },
    };
    if !(f.source_loc.column as u64 == s.character as u64 + 1 && l.source_loc.column as u64
        + l.source_loc.length as u64 == e.character as u64 + 1) {
        return None;
    }
    let cs = chars_of(doc.contents.as_str());
    let i = match char_index_of_byte(&cs, f.source_loc.pos as u64) {
        Some(i) => i,
        None => {
            return None;
        },
    };
    let j = match char_index_of_byte(&cs, l.source_loc.pos as u64 + l.source_loc.length as u64) {
        Some(j) => j,
        None => {
            return None;
        },
    };
    if i > j {
        return None;
    }
    let mut decl = owned("new-var = ");
    let selected = string_from_chars(&cs, i, j);
    push_str(&mut decl, selected.as_str());
    push_str(&mut decl, "\n");
    let mut edits: Vec<(LspRange, String)> = Vec::new();
    let at = LspPosition { line: s.line, character: 0 };
    edits.push((LspRange { start: at, end: at }, decl));
    edits.push((range, owned("new-var")));
    proof {
        reveal_strlit("new-var");
        reveal_strlit("new-var = ");
        reveal_strlit(" = ");
        reveal_strlit("\n");
        assert(doc_token(doc, s.line as int, s.character) == Some(*f));
        assert(doc_token(doc, s.line as int, (e.character - 1) as u32) == Some(*l));
        assert(cs@ == doc.contents@);
        assert(decl@ =~= extract_name() + " = "@ + doc.contents@.subrange(i as int, j as int) + "\n"@);
        let ins = LspRange { start: at, end: at };
        assert(extract_edits(doc, range) == Some(
            seq![(ins, extract_name() + " = "@ + doc.contents@.subrange(i as int, j as int) + "\n"@), (range, extract_name())],
        ));
        assert(edit_views(edits@) =~= extract_edits(doc, range)->0);
    }
    Some(edits)
}

/// The edits that put `text` over each usage whose range fits.
pub open spec fn usage_edits(ts: Seq<Token>, text: Seq<char>) -> Seq<(LspRange, Seq<char>)>
    decreases ts.len(),
{
    if ts.len() == 0 {
        Seq::empty()
    } else {
        let t = ts.last();
        let prev = usage_edits(ts.drop_last(), text);
        if loc_fits(t.source_loc.line, t.source_loc.column, t.source_loc.length) {
            prev.push((range3(t.source_loc.line, t.source_loc.column, t.source_loc.length), text))
        } else {
            prev
        }
    }
}

/// Whether a code number is that of a naming lint.
pub open spec fn is_naming_lint(n: i32) -> bool {
    n == code_number_spec(DiagnosticCode::Analyzer_Lint_CamelCase) || n == code_number_spec(
        DiagnosticCode::Analyzer_Lint_SnakeCase,
    )
}

/// The fix of a naming lint: where the diagnostic starts at a user-defined
/// variable defined by an identifier, every usage renamed to that name in
/// kebab case.
pub open spec fn fix_for(doc: &Document, d: ClientDiagnostic) -> Option<Seq<(LspRange, Seq<char>)>> {
    match d.code {
        Some(n) => if is_naming_lint(n) {
            match doc_entity(doc, d.range.start.line as int, d.range.start.character) {
                Some(Entity::LValue { addr }) => match doc_info(doc, addr@) {
                    Some(info) => match info.definition {
                        TermDefn::UserDefined { token } => match token.token_type {
                            TokenType::Identifier(name) => Some(usage_edits(info.usages@, kebab_spec(name@))),
                            _ => None,
                        },
                        _ => None,
                    },
                    None => None,
                },
                _ => None,
            }
        } else {
            None
        },
        None => None,
    }
}

/// The fixes of the diagnostics, in order: each with the index of its
/// diagnostic and its edits.
pub open spec fn fixes_spec(doc: &Document, ds: Seq<ClientDiagnostic>) -> Seq<(int, Seq<(LspRange, Seq<char>)>)>
    decreases ds.len(),
{
    if ds.len() == 0 {
        Seq::empty()
    } else {
        let prev = fixes_spec(doc, ds.drop_last());
        match fix_for(doc, ds.last()) {
            Some(edits) => prev.push((ds.len() - 1, edits)),
            None => prev,
        }
    }
}

/// The views of edits.
pub open spec fn edit_views(v: Seq<(LspRange, String)>) -> Seq<(LspRange, Seq<char>)> {
    v.map_values(|e: (LspRange, String)| (e.0, e.1@))
}

/// The views of quick fixes.
pub open spec fn fixes_view(v: Seq<QuickFix>) -> Seq<(int, Seq<(LspRange, Seq<char>)>)> {
    v.map_values(|f: QuickFix| (f.diagnostic as int, edit_views(f.edits@)))
}

/// The edits that put `text` over each usage, as [`usage_edits`] says.
fn edits_for(ts: &Vec<Token>, text: &String) -> (r: Vec<(LspRange, String)>)
    ensures
        edit_views(r@) == usage_edits(ts@, text@),
{
    let mut r: Vec<(LspRange, String)> = Vec::new();
    let mut i: usize = 0;
    while i < ts.len()
        invariant
            i <= ts@.len(),
            edit_views(r@) == usage_edits(ts@.take(i as int), text@),
        decreases ts@.len() - i,
    {
        let ghost before = edit_views(r@);
        if let Some(range) = token_range_opt(&ts[i]) {
            r.push((range, text.clone()));
            proof {
                assert(edit_views(r@) =~= before.push((range, text@)));
            }
        }
        proof {
            let t = ts@.take(i + 1);
            assert(t.drop_last() =~= ts@.take(i as int));
            assert(t.last() == ts@[i as int]);
        }
        i = i + 1;
    }
    proof {
        assert(ts@.take(i as int) =~= ts@);
    }
    r
}

/// Renames a variable named against the kebab-case convention to its
/// kebab-case form, for each naming lint among the diagnostics, as
/// [`fixes_spec`] says; every fix is titled `Use kebab-case name` and
/// preferred. `None` where there is none.
pub fn actions_in_diagnostics(doc: &Document, diagnostics: &Vec<ClientDiagnostic>) -> (r: Option<Vec<QuickFix>>)
    ensures
        match r {
            Some(v) => fixes_view(v@) == fixes_spec(doc, diagnostics@) && v@.len() > 0 && forall|i: int|
                0 <= i < v@.len() ==> (#[trigger] v@[i]).title@ == "Use kebab-case name"@ && v@[i].is_preferred,
            None => fixes_spec(doc, diagnostics@).len() == 0,
        },
{
    let mut actions: Vec<QuickFix> = Vec::new();
    let mut k: usize = 0;
    while k < diagnostics.len()
        invariant
            k <= diagnostics@.len(),
            fixes_view(actions@) == fixes_spec(doc, diagnostics@.take(k as int)),
            forall|i: int| 0 <= i < actions@.len() ==> (#[trigger] actions@[i]).title@ == "Use kebab-case name"@ && actions@[i].is_preferred,
        decreases diagnostics@.len() - k,
    {
        let d = diagnostics[k];
        let ghost before = actions@;
        let fix = match d.code {
            Some(n) => match code_from_number(n) {
                Some(DiagnosticCode::Analyzer_Lint_CamelCase) | Some(DiagnosticCode::Analyzer_Lint_SnakeCase) => {
                    match entity_at(doc, d.range.start.line, d.range.start.character) {
                        Some(Entity::LValue { addr }) => match info_at(doc, addr) {
                            Some(info) => match &info.definition {
                                TermDefn::UserDefined { token } => match &token.token_type {
                                    TokenType::Identifier(name) => {
                                        let kebabed = kebab_cased(name.as_str());
                                        Some(edits_for(&info.usages, &kebabed))
                                    },
                                    _ => None,
                                },
                                _ => None,
                            },
                            None => None,
                        },
                        _ => None,
                    }
                },
                _ => None,
            },
            None => None,
        };
        proof {
            if let Some(n) = d.code {
                if is_naming_lint(n) {
                    assert(0 <= n <= 20);
                }
            }
        }
        if let Some(edits) = fix {
            actions.push(QuickFix { title: owned("Use kebab-case name"), diagnostic: k, is_preferred: true, edits });
        }
        proof {
            let t = diagnostics@.take(k + 1);
            assert(t.drop_last() =~= diagnostics@.take(k as int));
            assert(t.last() == d);
            assert(fixes_view(actions@) =~= fixes_spec(doc, t));
        }
        k = k + 1;
    }
    proof {
        assert(diagnostics@.take(k as int) =~= diagnostics@);
    }
    if actions.len() == 0 {
        None
    } else {
        Some(actions)
    }
}

/// The fixes of a list of diagnostics hold each diagnostic's own fix, under
/// that diagnostic's index.
proof fn lemma_fixes_hold_each_fix(doc: &Document, ds: Seq<ClientDiagnostic>, i: int)
    requires
        0 <= i < ds.len(),
        fix_for(doc, ds[i]) is Some,
    ensures
        fixes_spec(doc, ds).contains((i, fix_for(doc, ds[i])->0)),
    decreases ds.len(),
{
    let prev = fixes_spec(doc, ds.drop_last());
    if i == ds.len() - 1 {
        assert(fixes_spec(doc, ds) == prev.push((i, fix_for(doc, ds[i])->0)));
        assert(fixes_spec(doc, ds)[prev.len() as int] == (i, fix_for(doc, ds[i])->0));
    } else {
        assert(ds.drop_last()[i] == ds[i]);
        lemma_fixes_hold_each_fix(doc, ds.drop_last(), i);
        let j = choose|j: int| 0 <= j < prev.len() && prev[j] == (i, fix_for(doc, ds[i])->0);
        match fix_for(doc, ds.last()) {
            Some(e) => {
                assert(fixes_spec(doc, ds) == prev.push((ds.len() - 1, e)));
                assert(fixes_spec(doc, ds)[j] == prev[j]);
            },
            None => {},
        }
    }
}

/// A naming lint of either kind, camelCase or snake_case, whose range starts
/// at a user-defined variable that an identifier names is fixed by renaming
/// every usage of that variable to the kebab-case form of its name; that fix
/// stands, under the lint's index, among the fixes of any list of
/// diagnostics that holds the lint. A diagnostic with no code, or with a code
/// of neither lint, gets no fix.
pub proof fn law_naming_lints_get_kebab_fixes(doc: &Document, ds: Seq<ClientDiagnostic>, i: int)
    requires
        0 <= i < ds.len(),
    ensures
        ({
            let d = ds[i];
            (d.code == Some(code_number_spec(DiagnosticCode::Analyzer_Lint_CamelCase)) || d.code == Some(
                code_number_spec(DiagnosticCode::Analyzer_Lint_SnakeCase),
            )) ==> (doc_entity(doc, d.range.start.line as int, d.range.start.character) matches Some(
                Entity::LValue { addr },
            ) ==> (doc_info(doc, addr@) matches Some(info) ==> (info.definition matches TermDefn::UserDefined {
                token,
            } ==> (token.token_type matches TokenType::Identifier(name) ==> fix_for(doc, d) == Some(
                usage_edits(info.usages@, kebab_spec(name@)),
            ) && fixes_spec(doc, ds).contains((i, usage_edits(info.usages@, kebab_spec(name@))))))))
        }),
        ({
            let d = ds[i];
            d.code != Some(code_number_spec(DiagnosticCode::Analyzer_Lint_CamelCase)) && d.code != Some(
                code_number_spec(DiagnosticCode::Analyzer_Lint_SnakeCase),
            ) ==> fix_for(doc, d) is None
        }),
{
    let d = ds[i];
    if fix_for(doc, d) is Some {
        lemma_fixes_hold_each_fix(doc, ds, i);
    }
    if d.code == Some(code_number_spec(DiagnosticCode::Analyzer_Lint_CamelCase)) || d.code == Some(
        code_number_spec(DiagnosticCode::Analyzer_Lint_SnakeCase),
    ) {
        assert(is_naming_lint(d.code->0));
        if let Some(Entity::LValue { addr }) = doc_entity(doc, d.range.start.line as int, d.range.start.character) {
            if let Some(info) = doc_info(doc, addr@) {
                if let TermDefn::UserDefined { token } = info.definition {
                    if let TokenType::Identifier(name) = token.token_type {
                        assert(fix_for(doc, d) == Some(usage_edits(info.usages@, kebab_spec(name@))));
                    }
                }
            }
        }
    }
}

} // verus!
