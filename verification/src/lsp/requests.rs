//! The answers to a client's requests about a position of a document:
//! hover, definition, references, renaming.

use vstd::prelude::*;

use crate::analyzer::organic_type::{clone_type, TypeV};
use crate::analyzer::value::{Note, TermDefn};
use crate::lexer::token::{Token, TokenType};
use crate::lsp::common::token_range_opt;
use crate::lsp::definition::{defn_text, describable, describe_defn};
use crate::lsp::diagnostics::{loc_fits, range3, LspPosition, LspRange};
use crate::lsp::document::{doc_entity, doc_info, doc_token, entity_at, entity_points, entity_range_at, info_at, token_at, Document, Entity, LValueInfo};
use crate::lsp::named_arg::{describe_named_arg, named_arg_text};
use crate::text::{owned, push_str};

verus! {

/// The first usage of a variable, if it has one.
pub open spec fn first_usage(info: LValueInfo) -> Option<Token> {
    if info.usages@.len() > 0 {
        Some(info.usages@[0])
    } else {
        None
    }
}

/// The type analysis gave a variable, if any.
pub open spec fn info_type(info: LValueInfo) -> Option<TypeV> {
    match info.defn_info_opt {
        Some(d) => Some(d.organic_type@),
        None => None,
    }
}

/// The hover text of the entity at a position: a named argument's
/// parameter, a literal's value, or a variable's definition (`Unknown term`
/// where nothing is known of it). `None` where there is no entity, or where
/// the definition cannot be described (a built-in shown without an
/// identifier token, on which the description would fail).
pub open spec fn hover_text(doc: &Document, line: int, ch: u32, hertz: Seq<char>) -> Option<Seq<char>> {
    match doc_entity(doc, line, ch) {
        None => None,
        Some(Entity::NamedArg { name, func_addr, func }) => Some(named_arg_text(name@, func_addr, *func)),
        Some(Entity::NumberLiteral(value)) => Some("value of `number` literal: `"@ + value@ + "`"@),
        Some(Entity::StringLiteral(value)) => Some("value of `string` literal: `"@ + value@ + "`"@),
        Some(Entity::LValue { addr }) => match doc_info(doc, addr@) {
            None => Some("Unknown term"@),
            Some(info) => if describable(info.definition, first_usage(*info)) {
                Some(defn_text(info.definition, info_type(*info), first_usage(*info), hertz))
            } else {
                None
            },
        },
    }
}

/// The built-in note defined at a position's variable, if it is one.
pub open spec fn hover_note_spec(doc: &Document, line: int, ch: u32) -> Option<Note> {
    match doc_entity(doc, line, ch) {
        Some(Entity::LValue { addr }) => match doc_info(doc, addr@) {
            Some(info) => match info.definition {
                TermDefn::BuiltinNote { note } => Some(note),
                _ => None,
            },
            None => None,
        },
        _ => None,
    }
}

/// The note whose frequency a hover at this position shows, as
/// [`hover_note_spec`] says.
pub fn hover_note(doc: &Document, line: u32, ch: u32) -> (r: Option<Note>)
    ensures
        r == hover_note_spec(doc, line as int, ch),
{
    match entity_at(doc, line, ch) {
        Some(Entity::LValue { addr }) => match info_at(doc, addr) {
            Some(info) => match &info.definition {
                TermDefn::BuiltinNote { note } => Some(*note),
                _ => None,
            },
            None => None,
        },
        _ => None,
    }
}

/// The hover at a position: its text, as [`hover_text`] says (`hertz` being
/// the frequency of the note there, if any), and the whole range of the
/// entity on the position's line: it holds the position and the same entity
/// throughout, and the positions just before and just after it do not.
pub fn hover(doc: &Document, line: u32, ch: u32, hertz: &str) -> (r: Option<(String, LspRange)>)
    ensures
        match r {
            Some((text, range)) => {
                &&& hover_text(doc, line as int, ch, hertz@) == Some(text@)
                &&& range.start.line == line && range.end.line == line
                &&& range.start.character <= ch < range.end.character
                &&& forall|j: u32|
                    range.start.character <= j < range.end.character ==> #[trigger] doc_entity(doc, line as int, j)
                        == doc_entity(doc, line as int, ch)
                &&& range.start.character == 0 || doc_entity(doc, line as int, (range.start.character - 1) as u32)
                    != doc_entity(doc, line as int, ch)
                &&& doc_entity(doc, line as int, range.end.character) != doc_entity(doc, line as int, ch)
            },
            None => hover_text(doc, line as int, ch, hertz@) is None,
        },
{
    let entity = match entity_at(doc, line, ch) {
        Some(e) => e,
        None => {
            return None;
        },
    };
    let text = match entity {
        Entity::NamedArg { name, func_addr, func } => describe_named_arg(name.as_str(), func_addr, func),
        Entity::NumberLiteral(value) => {
            let mut t = owned("value of `number` literal: `");
            push_str(&mut t, value.as_str());
            push_str(&mut t, "`");
            t
        },
        Entity::StringLiteral(value) => {
            let mut t = owned("value of `string` literal: `");
            push_str(&mut t, value.as_str());
            push_str(&mut t, "`");
            t
        },
        Entity::LValue { addr } => match info_at(doc, addr) {
            None => owned("Unknown term"),
            Some(info) => {
                let info: &LValueInfo = &**info;
                let token_opt = if info.usages.len() > 0 {
                    Some(&info.usages[0])
                } else {
                    None
                };
                let ok = match &info.definition {
                    TermDefn::BuiltinConstant { .. } | TermDefn::BuiltinFn { .. } => match token_opt {
                        Some(t) => matches!(t.token_type, TokenType::Identifier(_)),
                        None => false,
                    },
                    TermDefn::BuiltinNote { .. } => true,
                    TermDefn::UserDefined { token } => matches!(token.token_type, TokenType::Identifier(_)),
                };
                if !ok {
                    return None;
                }
                let ot_opt = match &info.defn_info_opt {
                    Some(d) => Some(clone_type(&d.organic_type)),
                    None => None,
                };
                describe_defn(&info.definition, ot_opt, token_opt, hertz)
            },
        },
    };
    let (start, end) = match entity_range_at(&doc.entities[line as usize], ch) {
        Some(range) => range,
        None => {
            return None;
        },
    };
    let range = LspRange {
        start: LspPosition { line, character: start },
        end: LspPosition { line, character: end },
    };
    proof {
        let pts = entity_points(doc.entities@[line as int]);
        assert(doc_entity(doc, line as int, ch) == Some(pts[ch]));
        if start > 0 {
            let before = (start - 1) as u32;
            if pts.dom().contains(before) {
                assert(doc_entity(doc, line as int, before) == Some(pts[before]));
            } else {
                assert(doc_entity(doc, line as int, before) is None);
            }
        }
        if pts.dom().contains(end) {
            assert(doc_entity(doc, line as int, end) == Some(pts[end]));
        } else {
            assert(doc_entity(doc, line as int, end) is None);
        }
        assert(doc_entity(doc, line as int, end) != doc_entity(doc, line as int, ch));
        assert(start == 0 || doc_entity(doc, line as int, (start - 1) as u32) != doc_entity(doc, line as int, ch));
        assert forall|j: u32| start <= j < end implies #[trigger] doc_entity(doc, line as int, j) == doc_entity(
            doc,
            line as int,
            ch,
        ) by {
            assert(pts.dom().contains(j));
        }
    }
    Some((text, range))
}

/// The token that defines the variable at a position, where analysis
/// found its definition.
pub open spec fn definition_spec(doc: &Document, line: int, ch: u32) -> Option<Token> {
    match doc_entity(doc, line, ch) {
        Some(Entity::LValue { addr }) => match doc_info(doc, addr@) {
            Some(info) => match info.defn_info_opt {
                Some(d) => Some(d.token),
                None => None,
            },
            None => None,
        },
        _ => None,
    }
}

/// The defining token of the variable at a position, as
/// [`definition_spec`] says.
pub fn definition_token(doc: &Document, line: u32, ch: u32) -> (r: Option<Token>)
    ensures
        r == definition_spec(doc, line as int, ch),
{
    match entity_at(doc, line, ch) {
        Some(Entity::LValue { addr }) => match info_at(doc, addr) {
            Some(info) => match &info.defn_info_opt {
                Some(d) => Some(d.token.clone()),
                None => None,
            },
            None => None,
        },
        _ => None,
    }
}

/// The usages of the variable at a position.
pub open spec fn references_spec(doc: &Document, line: int, ch: u32) -> Option<Seq<Token>> {
    match doc_entity(doc, line, ch) {
        Some(Entity::LValue { addr }) => match doc_info(doc, addr@) {
            Some(info) => Some(info.usages@),
            None => None,
        },
        _ => None,
    }
}

/// The usages of the variable at a position, as [`references_spec`] says.
pub fn reference_tokens(doc: &Document, line: u32, ch: u32) -> (r: Option<Vec<Token>>)
    ensures
        match r {
            Some(v) => references_spec(doc, line as int, ch) == Some(v@),
            None => references_spec(doc, line as int, ch) is None,
        },
{
    match entity_at(doc, line, ch) {
        Some(Entity::LValue { addr }) => match info_at(doc, addr) {
            Some(info) => {
                let mut v: Vec<Token> = Vec::new();
                let mut i: usize = 0;
                while i < info.usages.len()
                    invariant
                        i <= info.usages@.len(),
                        v@ == info.usages@.take(i as int),
                    decreases info.usages@.len() - i,
                {
                    v.push(info.usages[i].clone());
                    i = i + 1;
                    proof {
                        assert(v@ =~= info.usages@.take(i as int));
                    }
                }
                proof {
                    assert(info.usages@.take(i as int) =~= info.usages@);
                }
                Some(v)
            },
            None => None,
        },
        _ => None,
    }
}

/// The edits that rename each usage in `ts` to `new_name`: its document,
/// its range and the new name, for each usage whose range fits.
pub open spec fn rename_spec(ts: Seq<Token>, new_name: Seq<char>) -> Seq<(Seq<char>, LspRange, Seq<char>)>
    decreases ts.len(),
{
    if ts.len() == 0 {
        Seq::empty()
    } else {
        let t = ts.last();
        let prev = rename_spec(ts.drop_last(), new_name);
        if loc_fits(t.source_loc.line, t.source_loc.column, t.source_loc.length) {
            prev.push((t.source_loc.doc_loc@, range3(t.source_loc.line, t.source_loc.column, t.source_loc.length), new_name))
        } else {
            prev
        }
    }
}

/// The views of edits.
pub open spec fn edits_view(v: Seq<(String, LspRange, String)>) -> Seq<(Seq<char>, LspRange, Seq<char>)> {
    v.map_values(|e: (String, LspRange, String)| (e.0@, e.1, e.2@))
}

/// The edits that rename the variable at a position, as [`rename_spec`]
/// says of its usages.
pub fn rename_edits(doc: &Document, line: u32, ch: u32, new_name: &str) -> (r: Option<Vec<(String, LspRange, String)>>)
    ensures
        match r {
            Some(v) => references_spec(doc, line as int, ch) matches Some(ts) && edits_view(v@) == rename_spec(ts, new_name@),
            None => references_spec(doc, line as int, ch) is None,
        },
{
    let tokens = match reference_tokens(doc, line, ch) {
        Some(ts) => ts,
        None => {
            return None;
        },
    };
    let mut edits: Vec<(String, LspRange, String)> = Vec::new();
    let mut i: usize = 0;
    while i < tokens.len()
        invariant
            i <= tokens@.len(),
            edits_view(edits@) == rename_spec(tokens@.take(i as int), new_name@),
        decreases tokens@.len() - i,
    {
        let t = &tokens[i];
        let ghost before = edits_view(edits@);
        if let Some(range) = token_range_opt(t) {
            let uri = owned(t.source_loc.doc_loc.as_str());
            edits.push((uri, range, owned(new_name)));
        }
        proof {
            let tk = tokens@.take(i + 1);
            assert(tk.drop_last() =~= tokens@.take(i as int));
            assert(tk.last() == *t);
            assert(edits_view(edits@) =~= rename_spec(tk, new_name@));
        }
        i = i + 1;
    }
    proof {
        assert(tokens@.take(i as int) =~= tokens@);
    }
    Some(edits)
}

/// The identifier at a position, with its range, as the placeholder of a
/// renaming.
pub open spec fn prepare_rename_spec(doc: &Document, line: int, ch: u32) -> Option<(LspRange, Seq<char>)> {
    match doc_token(doc, line, ch) {
        Some(t) => match t.token_type {
            TokenType::Identifier(name) => if loc_fits(t.source_loc.line, t.source_loc.column, t.source_loc.length) {
                Some((range3(t.source_loc.line, t.source_loc.column, t.source_loc.length), name@))
            } else {
                None
            },
            _ => None,
        },
        None => None,
    }
}

/// The range and name of the identifier at a position, as
/// [`prepare_rename_spec`] says.
pub fn prepare_rename(doc: &Document, line: u32, ch: u32) -> (r: Option<(LspRange, String)>)
    ensures
        match r {
            Some((range, name)) => prepare_rename_spec(doc, line as int, ch) == Some((range, name@)),
            None => prepare_rename_spec(doc, line as int, ch) is None,
        },
{
    match token_at(doc, line, ch) {
        Some(t) => match &t.token_type {
            TokenType::Identifier(name) => match token_range_opt(t) {
                Some(range) => Some((range, name.clone())),
                None => None,
            },
            _ => None,
        },
        None => None,
    }
}

} // verus!
