//! Tokens of the Organic language.

use vstd::prelude::*;

use crate::common::table::ViewEq;
use crate::lexer::source_loc::{SourceLoc, SourceLocV};

verus! {

/// A token together with where it stands.
#[derive(Debug, Eq, Hash, Ord, PartialEq, PartialOrd)]
pub struct Token {
    pub token_type: TokenType,
    pub source_loc: SourceLoc,
}

/// The kinds of token; those with a payload carry the text that matters.
/// `Number` carries the digits of the literal as written.
#[derive(Debug, Eq, Hash, Ord, PartialEq, PartialOrd)]
pub enum TokenType {
    BlockComment,
    Colon,
    Comma,
    Comment,
    Divide,
    Equals,
    GreaterThan,
    GreaterThanEquals,
    Identifier(String),
    Include,
    LeftBrace,
    LeftBracket,
    LeftParen,
    LessThan,
    LessThanEquals,
    Newline,
    Number(String),
    Minus,
    Multiply,
    Plus,
    RightBrace,
    RightBracket,
    RightParen,
    String(String),
    UnterminatedString(String),
    Whitespace,
}

/// The mathematical content of a [`TokenType`].
pub enum TokenTypeV {
    BlockComment,
    Colon,
    Comma,
    Comment,
    Divide,
    Equals,
    GreaterThan,
    GreaterThanEquals,
    Identifier(Seq<char>),
    Include,
    LeftBrace,
    LeftBracket,
    LeftParen,
    LessThan,
    LessThanEquals,
    Newline,
    Number(Seq<char>),
    Minus,
    Multiply,
    Plus,
    RightBrace,
    RightBracket,
    RightParen,
    String(Seq<char>),
    UnterminatedString(Seq<char>),
    Whitespace,
}

/// The mathematical content of a [`Token`].
pub struct TokenV {
    pub token_type: TokenTypeV,
    pub source_loc: SourceLocV,
}

impl View for TokenType {
    type V = TokenTypeV;

    open spec fn view(&self) -> TokenTypeV {
        match self {
            TokenType::BlockComment => TokenTypeV::BlockComment,
            TokenType::Colon => TokenTypeV::Colon,
            TokenType::Comma => TokenTypeV::Comma,
            TokenType::Comment => TokenTypeV::Comment,
            TokenType::Divide => TokenTypeV::Divide,
            TokenType::Equals => TokenTypeV::Equals,
            TokenType::GreaterThan => TokenTypeV::GreaterThan,
            TokenType::GreaterThanEquals => TokenTypeV::GreaterThanEquals,
            TokenType::Identifier(s) => TokenTypeV::Identifier(s@),
            TokenType::Include => TokenTypeV::Include,
            TokenType::LeftBrace => TokenTypeV::LeftBrace,
            TokenType::LeftBracket => TokenTypeV::LeftBracket,
            TokenType::LeftParen => TokenTypeV::LeftParen,
            TokenType::LessThan => TokenTypeV::LessThan,
            TokenType::LessThanEquals => TokenTypeV::LessThanEquals,
            TokenType::Newline => TokenTypeV::Newline,
            TokenType::Number(s) => TokenTypeV::Number(s@),
            TokenType::Minus => TokenTypeV::Minus,
            TokenType::Multiply => TokenTypeV::Multiply,
            TokenType::Plus => TokenTypeV::Plus,
            TokenType::RightBrace => TokenTypeV::RightBrace,
            TokenType::RightBracket => TokenTypeV::RightBracket,
            TokenType::RightParen => TokenTypeV::RightParen,
            TokenType::String(s) => TokenTypeV::String(s@),
            TokenType::UnterminatedString(s) => TokenTypeV::UnterminatedString(s@),
            TokenType::Whitespace => TokenTypeV::Whitespace,
        }
    }
}

impl View for Token {
    type V = TokenV;

    open spec fn view(&self) -> TokenV {
        TokenV { token_type: self.token_type@, source_loc: self.source_loc@ }
    }
}

impl Clone for TokenType {
    fn clone(&self) -> (r: Self)
        ensures
            r == *self,
    {
        match self {
            TokenType::BlockComment => TokenType::BlockComment,
            TokenType::Colon => TokenType::Colon,
            TokenType::Comma => TokenType::Comma,
            TokenType::Comment => TokenType::Comment,
            TokenType::Divide => TokenType::Divide,
            TokenType::Equals => TokenType::Equals,
            TokenType::GreaterThan => TokenType::GreaterThan,
            TokenType::GreaterThanEquals => TokenType::GreaterThanEquals,
            TokenType::Identifier(s) => TokenType::Identifier(s.clone()),
            TokenType::Include => TokenType::Include,
            TokenType::LeftBrace => TokenType::LeftBrace,
            TokenType::LeftBracket => TokenType::LeftBracket,
            TokenType::LeftParen => TokenType::LeftParen,
            TokenType::LessThan => TokenType::LessThan,
            TokenType::LessThanEquals => TokenType::LessThanEquals,
            TokenType::Newline => TokenType::Newline,
            TokenType::Number(s) => TokenType::Number(s.clone()),
            TokenType::Minus => TokenType::Minus,
            TokenType::Multiply => TokenType::Multiply,
            TokenType::Plus => TokenType::Plus,
            TokenType::RightBrace => TokenType::RightBrace,
            TokenType::RightBracket => TokenType::RightBracket,
            TokenType::RightParen => TokenType::RightParen,
            TokenType::String(s) => TokenType::String(s.clone()),
            TokenType::UnterminatedString(s) => TokenType::UnterminatedString(s.clone()),
            TokenType::Whitespace => TokenType::Whitespace,
        }
    }
}

impl Clone for Token {
    fn clone(&self) -> (r: Self)
        ensures
            r == *self,
    {
        Token { token_type: self.token_type.clone(), source_loc: self.source_loc.clone() }
    }
}

/// Whether two token types are the same.
pub fn same_token_type(a: &TokenType, b: &TokenType) -> (r: bool)
    ensures
        r == (a@ == b@),
{
    match (a, b) {
        (TokenType::BlockComment, TokenType::BlockComment) => true,
        (TokenType::Colon, TokenType::Colon) => true,
        (TokenType::Comma, TokenType::Comma) => true,
        (TokenType::Comment, TokenType::Comment) => true,
        (TokenType::Divide, TokenType::Divide) => true,
        (TokenType::Equals, TokenType::Equals) => true,
        (TokenType::GreaterThan, TokenType::GreaterThan) => true,
        (TokenType::GreaterThanEquals, TokenType::GreaterThanEquals) => true,
        (TokenType::Identifier(x), TokenType::Identifier(y)) => *x == *y,
        (TokenType::Include, TokenType::Include) => true,
        (TokenType::LeftBrace, TokenType::LeftBrace) => true,
        (TokenType::LeftBracket, TokenType::LeftBracket) => true,
        (TokenType::LeftParen, TokenType::LeftParen) => true,
        (TokenType::LessThan, TokenType::LessThan) => true,
        (TokenType::LessThanEquals, TokenType::LessThanEquals) => true,
        (TokenType::Newline, TokenType::Newline) => true,
        (TokenType::Number(x), TokenType::Number(y)) => *x == *y,
        (TokenType::Minus, TokenType::Minus) => true,
        (TokenType::Multiply, TokenType::Multiply) => true,
        (TokenType::Plus, TokenType::Plus) => true,
        (TokenType::RightBrace, TokenType::RightBrace) => true,
        (TokenType::RightBracket, TokenType::RightBracket) => true,
        (TokenType::RightParen, TokenType::RightParen) => true,
        (TokenType::String(x), TokenType::String(y)) => *x == *y,
        (TokenType::UnterminatedString(x), TokenType::UnterminatedString(y)) => *x == *y,
        (TokenType::Whitespace, TokenType::Whitespace) => true,
        _ => false,
    }
}

impl ViewEq for Token {
    fn view_eq(&self, other: &Self) -> (r: bool) {
        same_token_type(&self.token_type, &other.token_type) && self.source_loc.doc_loc.view_eq(
            &other.source_loc.doc_loc,
        ) && self.source_loc.pos
            == other.source_loc.pos && self.source_loc.line == other.source_loc.line
            && self.source_loc.column == other.source_loc.column && self.source_loc.length
            == other.source_loc.length
    }
}

} // verus!
