//! Semantic highlighting: the kind of each token, as a client expects the
//! data (each token relative to the one before it).

use vstd::prelude::*;

use crate::analyzer::analysis::HighlightingType;
use crate::analyzer::value::TermDefn;
use crate::common::doc_loc::DocLoc;
use crate::lexer::laws::{after, in_order, lemma_lex_tokens_placed_in_order, placed};
use crate::lexer::source_loc::SourceLoc;
use crate::lexer::token::{Token, TokenType, TokenTypeV, TokenV};
use crate::lexer::{lex, lex_spec, lexable, tokens_view};
use crate::lsp::document::{doc_entity, doc_info, entity_at, info_at, Document, Entity};

verus! {

/// The kinds of highlighting.
#[derive(Clone, Copy, Debug, Eq, PartialEq)]
pub enum SemanticKind {
    Function,
    LanguageConstant,
    Number,
    Operator,
    Parameter,
    String,
    Variable,
    Property,
    Comment,
    Keyword,
}

/// Modifiers of a highlighted token.
#[derive(Clone, Copy, Debug, Eq, PartialEq)]
pub enum Modifier {
    Mod1,
    Mod2,
    Mod3,
}

/// A highlighted token: its line relative to the previous one, its start
/// (relative to the previous one's on the same line), length, kind and
/// modifiers.
#[derive(Debug)]
pub struct Semantic {
    pub line: u32,
    pub start: u32,
    pub length: u32,
    pub token_type: SemanticKind,
    pub modifiers: Vec<Modifier>,
}

/// A highlighted token as a client receives it.
#[derive(Clone, Copy, Debug, Eq, PartialEq)]
pub struct SemanticTokenData {
    pub delta_line: u32,
    pub delta_start: u32,
    pub length: u32,
    pub token_type: u32,
    pub token_modifiers_bitset: u32,
}

/// The place of each kind in the legend the server announces; a keyword is
/// not in it and gets 100.
pub open spec fn kind_number(k: SemanticKind) -> u32 {
    match k {
        SemanticKind::Function => 0,
        SemanticKind::LanguageConstant => 1,
        SemanticKind::Number => 2,
        SemanticKind::Operator => 3,
        SemanticKind::Parameter => 4,
        SemanticKind::String => 5,
        SemanticKind::Variable => 6,
        SemanticKind::Property => 7,
        SemanticKind::Comment => 8,
        SemanticKind::Keyword => 100,
    }
}

/// The number of a kind, as [`kind_number`] says.
pub fn as_type_int(token_type: &SemanticKind) -> (r: u32)
    ensures
        r == kind_number(*token_type),
{
    match token_type {
        SemanticKind::Function => 0,
        SemanticKind::LanguageConstant => 1,
        SemanticKind::Number => 2,
        SemanticKind::Operator => 3,
        SemanticKind::Parameter => 4,
        SemanticKind::String => 5,
        SemanticKind::Variable => 6,
        SemanticKind::Property => 7,
        SemanticKind::Comment => 8,
        SemanticKind::Keyword => 100,
    }
}

/// The bit of a modifier.
pub fn as_modifier_int(modifier: &Modifier) -> (r: u32)
    ensures
        r == match *modifier {
            Modifier::Mod1 => 1u32,
            Modifier::Mod2 => 2u32,
            Modifier::Mod3 => 4u32,
        },
{
    match modifier {
        Modifier::Mod1 => 1,
        Modifier::Mod2 => 2,
        Modifier::Mod3 => 4,
    }
}

/// How an identifier at `line` and `column` (from 1) is highlighted: a
/// variable by its definition (built-in constants and notes as constants,
/// built-in functions as functions, a user's value as its analysis says,
/// a variable otherwise), a named argument as a property; `None` where a
/// literal stands there instead, which cannot be.
pub open spec fn ident_kind(doc: &Document, line: int, column: int) -> Option<SemanticKind> {
    match doc_entity(doc, line - 1, (column - 1) as u32) {
        Some(Entity::LValue { addr }) => Some(
            match doc_info(doc, addr@) {
                Some(info) => match info.definition {
                    TermDefn::BuiltinConstant { .. } => SemanticKind::LanguageConstant,
                    TermDefn::BuiltinFn { .. } => SemanticKind::Function,
                    TermDefn::BuiltinNote { .. } => SemanticKind::LanguageConstant,
                    TermDefn::UserDefined { .. } => match info.defn_info_opt {
                        Some(d) => match d.hl_type {
                            HighlightingType::Function => SemanticKind::Function,
                            HighlightingType::Parameter => SemanticKind::Parameter,
                            HighlightingType::Variable => SemanticKind::Variable,
                        },
                        None => SemanticKind::Variable,
                    },
                },
                None => SemanticKind::Variable,
            },
        ),
        Some(Entity::NamedArg { .. }) => Some(SemanticKind::Property),
        Some(Entity::NumberLiteral(_)) | Some(Entity::StringLiteral(_)) => None,
        None => Some(SemanticKind::Variable),
    }
}

/// Highlighting an identifier, as [`ident_kind`] says.
pub fn calc_highlighting_for_ident(source_loc: &SourceLoc, document: &Document) -> (r: Option<SemanticKind>)
    requires
        source_loc.line >= 1,
        source_loc.column >= 1,
    ensures
        r == ident_kind(document, source_loc.line as int, source_loc.column as int),
{
    match entity_at(document, source_loc.line - 1, source_loc.column - 1) {
        Some(Entity::LValue { addr }) => Some(
            match info_at(document, addr) {
                Some(info) => match &info.definition {
                    TermDefn::BuiltinConstant { .. } => SemanticKind::LanguageConstant,
                    TermDefn::BuiltinFn { .. } => SemanticKind::Function,
                    TermDefn::BuiltinNote { .. } => SemanticKind::LanguageConstant,
                    TermDefn::UserDefined { .. } => match &info.defn_info_opt {
                        Some(d) => match d.hl_type {
                            HighlightingType::Function => SemanticKind::Function,
                            HighlightingType::Parameter => SemanticKind::Parameter,
                            HighlightingType::Variable => SemanticKind::Variable,
                        },
                        None => SemanticKind::Variable,
                    },
                },
                None => SemanticKind::Variable,
            },
        ),
        Some(Entity::NamedArg { .. }) => Some(SemanticKind::Property),
        Some(Entity::NumberLiteral(_)) | Some(Entity::StringLiteral(_)) => None,
        None => Some(SemanticKind::Variable),
    }
}

/// What highlighting gives a token: `None` for punctuation that is not
/// highlighted, or a kind; `Err` where an identifier stands on a literal.
pub open spec fn token_kind(t: TokenV, doc: &Document) -> Result<Option<SemanticKind>, ()> {
    match t.token_type {
        TokenTypeV::BlockComment | TokenTypeV::Comment => Ok(Some(SemanticKind::Comment)),
        TokenTypeV::Colon | TokenTypeV::Comma | TokenTypeV::Equals | TokenTypeV::LeftBrace | TokenTypeV::LeftBracket
        | TokenTypeV::LeftParen | TokenTypeV::RightBrace | TokenTypeV::RightBracket | TokenTypeV::RightParen => Ok(None),
        TokenTypeV::Divide | TokenTypeV::GreaterThan | TokenTypeV::GreaterThanEquals | TokenTypeV::LessThan
        | TokenTypeV::LessThanEquals | TokenTypeV::Minus | TokenTypeV::Multiply | TokenTypeV::Plus => Ok(
            Some(SemanticKind::Operator),
        ),
        TokenTypeV::Identifier(_) => match ident_kind(doc, t.source_loc.line, t.source_loc.column) {
            Some(k) => Ok(Some(k)),
            None => Err(()),
        },
        TokenTypeV::Include => Ok(Some(SemanticKind::Keyword)),
        TokenTypeV::Number(_) => Ok(Some(SemanticKind::Number)),
        TokenTypeV::String(_) | TokenTypeV::UnterminatedString(_) => Ok(Some(SemanticKind::String)),
        TokenTypeV::Newline | TokenTypeV::Whitespace => Ok(None),
    }
}

/// The data of a highlighted token of kind `k` after a token at
/// `last_line` and `last_column`.
pub open spec fn token_data(t: TokenV, last_line: int, last_column: int, k: SemanticKind) -> SemanticTokenData {
    let line = t.source_loc.line - last_line;
    SemanticTokenData {
        delta_line: line as u32,
        delta_start: (if line == 0 {
            t.source_loc.column - last_column
        } else {
            t.source_loc.column - 1
        }) as u32,
        length: t.source_loc.length as u32,
        token_type: kind_number(k),
        token_modifiers_bitset: 0,
    }
}

/// The highlighting of the tokens from index `k` on, the last highlighted
/// one before them at `last_line` and `last_column`; `None` where an
/// identifier stands on a literal.
pub open spec fn semantic_from(ts: Seq<TokenV>, doc: &Document, k: int, last_line: int, last_column: int) -> Option<
    Seq<SemanticTokenData>,
>
    decreases ts.len() - k,
{
    if k < 0 || k >= ts.len() {
        Some(Seq::empty())
    } else {
        match token_kind(ts[k], doc) {
            Err(_) => None,
            Ok(None) => semantic_from(ts, doc, k + 1, last_line, last_column),
            Ok(Some(kind)) => match semantic_from(ts, doc, k + 1, ts[k].source_loc.line, ts[k].source_loc.column) {
                Some(rest) => Some(seq![token_data(ts[k], last_line, last_column, kind)] + rest),
                None => None,
            },
        }
    }
}

/// `out` before `r`, where `r` is something.
pub open spec fn prepend(out: Seq<SemanticTokenData>, r: Option<Seq<SemanticTokenData>>) -> Option<Seq<SemanticTokenData>> {
    match r {
        Some(rest) => Some(out + rest),
        None => None,
    }
}

/// The highlighting of a token after `last_loc`: `None` for the punctuation
/// that is not highlighted, else the token's kind (as [`token_kind`] gives
/// it) with its place counted from `last_loc`.
pub fn convert_token(token: &Token, last_loc: &SourceLoc, document: &Document) -> (r: Option<Semantic>)
    requires
        !(token@.token_type is Newline),
        !(token@.token_type is Whitespace),
        token_kind(token@, document) is Ok,
        token.source_loc.line >= last_loc.line,
        token.source_loc.line == last_loc.line ==> token.source_loc.column >= last_loc.column,
        token.source_loc.line >= 1,
        token.source_loc.column >= 1,
    ensures
        r is None <==> token_kind(token@, document) == Ok::<Option<SemanticKind>, ()>(None),
        match r {
            Some(s) => {
                &&& token_kind(token@, document) == Ok::<Option<SemanticKind>, ()>(Some(s.token_type))
                &&& s.line == token.source_loc.line - last_loc.line
                &&& s.start == (if s.line == 0 {
                    token.source_loc.column - last_loc.column
                } else {
                    token.source_loc.column - 1
                })
                &&& s.length == token.source_loc.length
                &&& s.modifiers@.len() == 0
            },
            None => true,
        },
{
    let kind_opt = match &token.token_type {
        TokenType::BlockComment | TokenType::Comment => Some(SemanticKind::Comment),
        TokenType::Colon | TokenType::Comma | TokenType::Equals | TokenType::LeftBrace | TokenType::LeftBracket
        | TokenType::LeftParen | TokenType::RightBrace | TokenType::RightBracket | TokenType::RightParen => None,
        TokenType::Divide | TokenType::GreaterThan | TokenType::GreaterThanEquals | TokenType::LessThan
        | TokenType::LessThanEquals | TokenType::Minus | TokenType::Multiply | TokenType::Plus => Some(
            SemanticKind::Operator,
        ),
        TokenType::Identifier(_) => calc_highlighting_for_ident(&token.source_loc, document),
        TokenType::Include => Some(SemanticKind::Keyword),
        TokenType::Number(_) => Some(SemanticKind::Number),
        TokenType::String(_) | TokenType::UnterminatedString(_) => Some(SemanticKind::String),
        TokenType::Newline | TokenType::Whitespace => None,
    };
    match kind_opt {
        None => None,
        Some(kind) => {
            let line = token.source_loc.line - last_loc.line;
            let start = if line == 0 {
                token.source_loc.column - last_loc.column
            } else {
                token.source_loc.column - 1
            };
            Some(Semantic { line, start, length: token.source_loc.length, token_type: kind, modifiers: Vec::new() })
        },
    }
}

/// The data of a highlighted token; its modifiers add up to the bitset.
pub fn as_lsp_token(token: &Semantic) -> (r: SemanticTokenData)
    requires
        token.modifiers@.len() == 0,
    ensures
        r == (SemanticTokenData {
            delta_line: token.line,
            delta_start: token.start,
            length: token.length,
            token_type: kind_number(token.token_type),
            token_modifiers_bitset: 0,
        }),
{
    let mut bits: u32 = 0;
    let mut i: usize = 0;
    while i < token.modifiers.len()
        invariant
            token.modifiers@.len() == 0,
            bits == 0,
        decreases token.modifiers@.len() - i,
    {
        bits = bits + as_modifier_int(&token.modifiers[i]);
        i = i + 1;
    }
    SemanticTokenData {
        delta_line: token.line,
        delta_start: token.start,
        length: token.length,
        token_type: as_type_int(&token.token_type),
        token_modifiers_bitset: bits,
    }
}

/// The highlighting of a document: its text lexed, then each token as
/// [`semantic_from`] says, from line 1, column 1. `None` where the text
/// cannot be lexed or an identifier stands on a literal.
pub fn calc_semantic_tokens(doc_loc: &DocLoc, document: &Document) -> (r: Option<Vec<SemanticTokenData>>)
    ensures
        match r {
            Some(v) => lexable_spec(document.contents@) && semantic_from(lex_spec(document.contents@, doc_loc@).0, document, 0, 1, 1) == Some(v@),
            None => !lexable_spec(document.contents@) || semantic_from(lex_spec(document.contents@, doc_loc@).0, document, 0, 1, 1) is None,
        },
{
    if !lexable(document.contents.as_str()) {
        return None;
    }
    let (tokens, _) = lex(doc_loc, document.contents.as_str());
    let ghost ts = tokens_view(tokens@);
    proof {
        lemma_lex_tokens_placed_in_order(document.contents@, doc_loc@);
        assert(ts == lex_spec(document.contents@, doc_loc@).0);
        assert(ts.len() == tokens@.len());
        if ts.len() > 0 {
            assert(placed(ts[0]));
        }
    }
    let mut out: Vec<SemanticTokenData> = Vec::new();
    let mut last_line: u32 = 1;
    let mut last_column: u32 = 1;
    let mut i: usize = 0;
    while i < tokens.len()
        invariant
            ts == tokens_view(tokens@),
            i <= tokens@.len(),
            forall|j: int| 0 <= j < ts.len() ==> placed(#[trigger] ts[j]),
            in_order(ts),
            ts.len() == tokens@.len(),
            ts == lex_spec(document.contents@, doc_loc@).0,
            lexable_spec(document.contents@),
            last_line >= 1,
            last_column >= 1,
            i < ts.len() ==> (ts[i as int].source_loc.line > last_line || (ts[i as int].source_loc.line == last_line
                && ts[i as int].source_loc.column >= last_column)),
            semantic_from(ts, document, 0, 1, 1) == prepend(out@, semantic_from(ts, document, i as int, last_line as int, last_column as int)),
        decreases tokens@.len() - i,
    {
        let token = &tokens[i];
        proof {
            assert(ts[i as int] == token@);
            assert(placed(ts[i as int]));
            if i + 1 < ts.len() {
                assert(crate::lexer::laws::after(ts[i as int], ts[i + 1]));
            }
        }
        let on_literal = match &token.token_type {
            TokenType::Identifier(_) => calc_highlighting_for_ident(&token.source_loc, document).is_none(),
            _ => false,
        };
        if on_literal {
            proof {
                assert(token_kind(ts[i as int], document) is Err);
                assert(semantic_from(ts, document, i as int, last_line as int, last_column as int) is None);
            }
            return None;
        }
        proof {
            assert(token_kind(ts[i as int], document) is Ok);
        }
        let last_loc = SourceLoc { doc_loc: doc_loc.clone(), pos: 0, line: last_line, column: last_column, length: 0 };
        if let Some(sem) = convert_token(token, &last_loc, document) {
            let ghost kind = sem.token_type;
            let data = as_lsp_token(&sem);
            let ghost before = out@;
            out.push(data);
            proof {
                assert(data == token_data(ts[i as int], last_line as int, last_column as int, kind));
                assert(out@ == before.push(data));
                assert(before + seq![data] =~= out@);
            }
            last_line = token.source_loc.line;
            last_column = token.source_loc.column;
        }
        i = i + 1;
    }
    proof {
        assert(out@ + Seq::<SemanticTokenData>::empty() =~= out@);
    }
    Some(out)
}

/// Whether the lexer may be given `s`.
pub open spec fn lexable_spec(s: Seq<char>) -> bool {
    crate::lexer::bytes::nl_count(s) < u32::MAX && !crate::lexer::reaches_uncuttable_string(s, 0)
}


/// The line, column and length of each token that `data` places, reading
/// it as an editor does from line `line` and column `column`: a token on
/// the same line as the one before counts its column from that one's, a
/// token on a later line from the line's start.
pub open spec fn decode(data: Seq<SemanticTokenData>, line: int, column: int) -> Seq<(int, int, int)>
    decreases data.len(),
{
    if data.len() == 0 {
        seq![]
    } else {
        let d = data[0];
        let l = line + d.delta_line;
        let c = if d.delta_line == 0 {
            column + d.delta_start
        } else {
            1 + d.delta_start
        };
        seq![(l, c, d.length as int)] + decode(data.drop_first(), l, c)
    }
}

/// The line, column and length of each token from index `k` on that
/// highlighting gives a kind, in order.
pub open spec fn highlighted(ts: Seq<TokenV>, doc: &Document, k: int) -> Seq<(int, int, int)>
    decreases ts.len() - k,
{
    if k < 0 || k >= ts.len() {
        seq![]
    } else {
        match token_kind(ts[k], doc) {
            Ok(Some(_)) => seq![(ts[k].source_loc.line, ts[k].source_loc.column, ts[k].source_loc.length)]
                + highlighted(ts, doc, k + 1),
            _ => highlighted(ts, doc, k + 1),
        }
    }
}

/// `t` is at line `line` and column `column`, or after.
pub open spec fn at_or_after(t: TokenV, line: int, column: int) -> bool {
    t.source_loc.line > line || (t.source_loc.line == line && t.source_loc.column >= column)
}

proof fn lemma_decode_from(ts: Seq<TokenV>, doc: &Document, k: int, line: int, column: int)
    requires
        0 <= k,
        1 <= line,
        1 <= column,
        forall|j: int| 0 <= j < ts.len() ==> placed(#[trigger] ts[j]) && ts[j].source_loc.line <= u32::MAX,
        in_order(ts),
        k < ts.len() ==> at_or_after(ts[k], line, column),
    ensures
        semantic_from(ts, doc, k, line, column) matches Some(v) ==> decode(v, line, column) == highlighted(
            ts,
            doc,
            k,
        ),
    decreases ts.len() - k,
{
    if k < ts.len() {
        let t = ts[k];
        assert(placed(t));
        if k + 1 < ts.len() {
            assert(after(ts[k], ts[k + 1]));
        }
        match token_kind(t, doc) {
            Err(_) => {},
            Ok(None) => {
                lemma_decode_from(ts, doc, k + 1, line, column);
            },
            Ok(Some(kind)) => {
                lemma_decode_from(ts, doc, k + 1, t.source_loc.line, t.source_loc.column);
                if let Some(rest) = semantic_from(ts, doc, k + 1, t.source_loc.line, t.source_loc.column) {
                    let d = token_data(t, line, column, kind);
                    let v = seq![d] + rest;
                    assert(v.drop_first() =~= rest);
                    assert(v[0] == d);
                    assert(line + d.delta_line == t.source_loc.line);
                    if d.delta_line == 0 {
                        assert(column + d.delta_start == t.source_loc.column);
                    } else {
                        assert(1 + d.delta_start == t.source_loc.column);
                    }
                }
            },
        }
    }
}

/// Reading the highlighting of a document back, as an editor does from
/// line 1 and column 1, gives the line, column and length of each token it
/// highlights, in order; `tokens` are the tokens the lexer makes of the
/// document's text.
pub proof fn lemma_highlighting_positions(doc_loc: &DocLoc, document: &Document, tokens: Seq<Token>)
    requires
        tokens_view(tokens) == lex_spec(document.contents@, doc_loc@).0,
    ensures
        semantic_from(lex_spec(document.contents@, doc_loc@).0, document, 0, 1, 1) matches Some(v) ==> decode(
            v,
            1,
            1,
        ) == highlighted(lex_spec(document.contents@, doc_loc@).0, document, 0),
{
    let ts = lex_spec(document.contents@, doc_loc@).0;
    lemma_lex_tokens_placed_in_order(document.contents@, doc_loc@);
    assert forall|j: int| 0 <= j < ts.len() implies placed(#[trigger] ts[j]) && ts[j].source_loc.line <= u32::MAX by {
        assert(tokens_view(tokens)[j] == tokens[j]@);
    }
    lemma_decode_from(ts, document, 0, 1, 1);
}

/// The legend of token types the server announces, in order.
pub open spec fn token_legend() -> Seq<Seq<char>> {
    seq![
        "function"@,
        "language_constant"@,
        "number"@,
        "operator"@,
        "parameter"@,
        "string"@,
        "variable"@,
        "property"@,
        "comment"@,
    ]
}

/// The name under which a kind is announced (a keyword is not announced).
pub open spec fn kind_name(k: SemanticKind) -> Seq<char> {
    match k {
        SemanticKind::Function => "function"@,
        SemanticKind::LanguageConstant => "language_constant"@,
        SemanticKind::Number => "number"@,
        SemanticKind::Operator => "operator"@,
        SemanticKind::Parameter => "parameter"@,
        SemanticKind::String => "string"@,
        SemanticKind::Variable => "variable"@,
        SemanticKind::Property => "property"@,
        SemanticKind::Comment => "comment"@,
        SemanticKind::Keyword => "keyword"@,
    }
}

/// The number sent for a highlighted token is the place of its kind in the
/// announced legend (a keyword, not in the legend, gets a number past it),
/// and distinct kinds get distinct numbers.
pub proof fn law_token_numbers_follow_the_legend(k: SemanticKind, k2: SemanticKind)
    ensures
        k != SemanticKind::Keyword ==> kind_number(k) < token_legend().len() && token_legend()[kind_number(k) as int]
            == kind_name(k),
        k == SemanticKind::Keyword ==> kind_number(k) >= token_legend().len(),
        kind_number(k) == kind_number(k2) ==> k == k2,
{
}

} // verus!
