//! What the hover of a variable shows.

use vstd::prelude::*;

use crate::analyzer::organic_type::{params_view, OrganicType, TypeV};
use crate::analyzer::value::{constant_type, Accidental, Note, PitchClass, TermDefn};
use crate::lexer::token::{Token, TokenType};
use crate::lsp::debug_text::{decimal, decimal_text};
use crate::lsp::pretty_type::{params_text, pretty_func, pretty_spec, pretty_type};
use crate::text::{owned, push_str};

verus! {

/// The name an identifier token spells.
pub open spec fn ident_text(t: Token) -> Seq<char> {
    t.token_type->Identifier_0@
}

/// The name an identifier token spells.
pub fn ident_name(token: &Token) -> (r: &str)
    requires
        token.token_type is Identifier,
    ensures
        r@ == ident_text(*token),
{
    match &token.token_type {
        TokenType::Identifier(name) => name.as_str(),
        _ => {
            proof {
                assert(false);
            }
            ""
        },
    }
}

/// How a note is written: its letter, `b` or `#` for a flat or sharp, and
/// its octave.
pub open spec fn note_text(n: Note) -> Seq<char> {
    seq![
        match n.pitch_class {
            PitchClass::A => 'A',
            PitchClass::B => 'B',
            PitchClass::C => 'C',
            PitchClass::D => 'D',
            PitchClass::E => 'E',
            PitchClass::F => 'F',
            PitchClass::G => 'G',
        },
    ] + (match n.accidental {
        Accidental::Flat => "b"@,
        Accidental::Natural => Seq::empty(),
        Accidental::Sharp => "#"@,
    }) + decimal(n.octave as nat)
}

/// Writes a note as [`note_text`] says.
pub fn describe_note(note: &Note) -> (r: String)
    ensures
        r@ == note_text(*note),
{
    let mut r = match note.pitch_class {
        PitchClass::A => owned("A"),
        PitchClass::B => owned("B"),
        PitchClass::C => owned("C"),
        PitchClass::D => owned("D"),
        PitchClass::E => owned("E"),
        PitchClass::F => owned("F"),
        PitchClass::G => owned("G"),
    };
    proof {
        reveal_strlit("A");
        reveal_strlit("B");
        reveal_strlit("C");
        reveal_strlit("D");
        reveal_strlit("E");
        reveal_strlit("F");
        reveal_strlit("G");
    }
    match note.accidental {
        Accidental::Flat => push_str(&mut r, "b"),
        Accidental::Natural => {},
        Accidental::Sharp => push_str(&mut r, "#"),
    }
    push_str(&mut r, decimal_text(note.octave as u64).as_str());
    proof {
        assert(r@ =~= note_text(*note));
    }
    r
}

/// The semitones of a note above C in octave -1: twelve per octave, the
/// pitch class's place above C, and one down for a flat or up for a sharp.
pub open spec fn semitones(n: Note) -> int {
    12 * (n.octave + 1) + (match n.pitch_class {
        PitchClass::C => 0int,
        PitchClass::D => 2,
        PitchClass::E => 4,
        PitchClass::F => 5,
        PitchClass::G => 7,
        PitchClass::A => 9,
        PitchClass::B => 11,
    }) + (match n.accidental {
        Accidental::Flat => -1int,
        Accidental::Natural => 0,
        Accidental::Sharp => 1,
    })
}

/// The semitones of a note, as [`semitones`] says; its frequency is
/// 440 Hz times two to the power of (semitones - 69) / 12.
pub fn note_semitones(note: &Note) -> (r: i32)
    ensures
        r == semitones(*note),
{
    let above_c: i32 = match note.pitch_class {
        PitchClass::C => 0,
        PitchClass::D => 2,
        PitchClass::E => 4,
        PitchClass::F => 5,
        PitchClass::G => 7,
        PitchClass::A => 9,
        PitchClass::B => 11,
    };
    let acci: i32 = match note.accidental {
        Accidental::Flat => -1,
        Accidental::Natural => 0,
        Accidental::Sharp => 1,
    };
    12 * (note.octave as i32 + 1) + above_c + acci
}

/// Whether a definition can be described: a built-in constant or function
/// needs an identifier token, and so does a user-defined value.
pub open spec fn describable(defn: TermDefn, token_opt: Option<Token>) -> bool {
    match defn {
        TermDefn::BuiltinConstant { .. } | TermDefn::BuiltinFn { .. } => token_opt matches Some(t) && t.token_type is Identifier,
        TermDefn::BuiltinNote { .. } => true,
        TermDefn::UserDefined { token } => token.token_type is Identifier,
    }
}

/// The description of a definition: a built-in constant or function with
/// its name (from `token_opt`) and type; a note with its name and, as given,
/// its frequency; a user-defined value with its name and type (unknown when
/// none is given) in a code block.
pub open spec fn defn_text(defn: TermDefn, ot_opt: Option<TypeV>, token_opt: Option<Token>, hertz: Seq<char>) -> Seq<char> {
    match defn {
        TermDefn::BuiltinConstant { value } => "Built-in constant `"@ + ident_text(token_opt->0) + "` of type `"@
            + pretty_spec(constant_type(&value)) + "`"@,
        TermDefn::BuiltinFn { value } => "Built-in function `"@ + ident_text(token_opt->0) + "` of type `"@
            + "(("@ + params_text(params_view(value.params@)) + ") => "@ + pretty_spec(value.return_type@) + ")"@
            + "`"@,
        TermDefn::BuiltinNote { note } => "Built-in note `"@ + note_text(note) + "` (`"@ + hertz + "` Hz)"@,
        TermDefn::UserDefined { token } => "User-defined value\n```scala\n"@ + ident_text(token) + ": "@
            + pretty_spec(
            match ot_opt {
                Some(t) => t,
                None => TypeV::Unknown,
            },
        ) + "\n```"@,
    }
}

/// The view of an optional type.
pub open spec fn opt_type_view(t: Option<OrganicType>) -> Option<TypeV> {
    match t {
        Some(t) => Some(t@),
        None => None,
    }
}

/// The token behind an optional reference.
pub open spec fn opt_token(t: Option<&Token>) -> Option<Token> {
    match t {
        Some(t) => Some(*t),
        None => None,
    }
}

/// Describes a definition, as [`defn_text`] says; `hertz` is the note's
/// frequency as text.
pub fn describe_defn(defn: &TermDefn, ot_opt: Option<OrganicType>, token_opt: Option<&Token>, hertz: &str) -> (r: String)
    requires
        describable(*defn, opt_token(token_opt)),
    ensures
        r@ == defn_text(*defn, opt_type_view(ot_opt), opt_token(token_opt), hertz@),
{
    match defn {
        TermDefn::BuiltinConstant { value } => {
            let token = match token_opt {
                Some(t) => t,
                None => {
                    proof {
                        assert(false);
                    }
                    return String::new();
                },
            };
            let mut r = owned("Built-in constant `");
            push_str(&mut r, ident_name(token));
            push_str(&mut r, "` of type `");
            push_str(&mut r, pretty_type(&value.as_type()).as_str());
            push_str(&mut r, "`");
            r
        },
        TermDefn::BuiltinFn { value } => {
            let token = match token_opt {
                Some(t) => t,
                None => {
                    proof {
                        assert(false);
                    }
                    return String::new();
                },
            };
            let mut r = owned("Built-in function `");
            push_str(&mut r, ident_name(token));
            push_str(&mut r, "` of type `");
            push_str(&mut r, pretty_func(value).as_str());
            push_str(&mut r, "`");
            r
        },
        TermDefn::BuiltinNote { note } => {
            let mut r = owned("Built-in note `");
            push_str(&mut r, describe_note(note).as_str());
            push_str(&mut r, "` (`");
            push_str(&mut r, hertz);
            push_str(&mut r, "` Hz)");
            r
        },
        TermDefn::UserDefined { token } => {
            let typ = match ot_opt {
                Some(t) => t,
                None => OrganicType::Unknown,
            };
            let mut r = owned("User-defined value\n```scala\n");
            push_str(&mut r, ident_name(token));
            push_str(&mut r, ": ");
            push_str(&mut r, pretty_type(&typ).as_str());
            push_str(&mut r, "\n```");
            r
        },
    }
}

} // verus!
