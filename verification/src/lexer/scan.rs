//! Recognising one token at a time: the token grammar of Organic, read by
//! longest match, with keywords taking precedence over identifiers of the
//! same length.

use vstd::prelude::*;

use crate::lexer::token::{TokenType, TokenTypeV};
use crate::text::string_from_chars;

verus! {

/// Classes of characters that make up runs within a token.
pub enum CharClass {
    /// Blanks skipped between tokens: space, tab, form feed and carriage
    /// return (so a CRLF line end lexes as its line feed).
    Blank,
    /// Decimal digits.
    Digit,
    /// Characters that may continue an identifier.
    IdentTail,
    /// Anything but a carriage return or a line feed.
    NotLineEnd,
}

pub open spec fn is_digit(c: char) -> bool {
    '0' <= c && c <= '9'
}

pub open spec fn is_ident_start(c: char) -> bool {
    ('A' <= c && c <= 'Z') || ('a' <= c && c <= 'z') || c == '_'
}

pub open spec fn in_class(cls: CharClass, c: char) -> bool {
    match cls {
        CharClass::Blank => c == ' ' || c == '\t' || c == '\x0c' || c == '\r',
        CharClass::Digit => is_digit(c),
        CharClass::IdentTail => is_ident_start(c) || is_digit(c) || c == '-',
        CharClass::NotLineEnd => c != '\r' && c != '\n',
    }
}

/// The number of consecutive characters of class `cls` from index `i`.
pub open spec fn run_len(s: Seq<char>, i: int, cls: CharClass) -> int
    decreases s.len() - i,
{
    if 0 <= i < s.len() && in_class(cls, s[i]) {
        1 + run_len(s, i + 1, cls)
    } else {
        0
    }
}

/// The index just past the first `*/` that starts at or after `j`.
pub open spec fn comment_close(s: Seq<char>, j: int) -> Option<int>
    decreases s.len() - j,
{
    if j < 0 || j + 1 >= s.len() {
        None
    } else if s[j] == '*' && s[j + 1] == '/' {
        Some(j + 2)
    } else {
        comment_close(s, j + 1)
    }
}

/// How the body of a string literal that continues at `j` ends.
pub enum StrEnd {
    /// With a closing quote; the index just past it.
    Closed(int),
    /// At the end of the text.
    Eof,
    /// With a backslash that escapes a line feed or nothing.
    Bad,
}

pub open spec fn string_end(s: Seq<char>, j: int) -> StrEnd
    decreases s.len() - j,
{
    if j < 0 || j >= s.len() {
        StrEnd::Eof
    } else if s[j] == '"' {
        StrEnd::Closed(j + 1)
    } else if s[j] == '\\' {
        if j + 1 < s.len() && s[j + 1] != '\n' {
            string_end(s, j + 2)
        } else {
            StrEnd::Bad
        }
    } else {
        string_end(s, j + 1)
    }
}

pub open spec fn include_keyword() -> Seq<char> {
    seq!['i', 'n', 'c', 'l', 'u', 'd', 'e']
}

/// The token that starts at index `i` (`None` where no token does) and its
/// length in characters.
pub open spec fn scan(s: Seq<char>, i: int) -> (Option<TokenTypeV>, int) {
    let c = s[i];
    let next_is = |d: char| i + 1 < s.len() && s[i + 1] == d;
    if in_class(CharClass::Blank, c) {
        (Some(TokenTypeV::Whitespace), run_len(s, i, CharClass::Blank))
    } else if c == '\n' {
        (Some(TokenTypeV::Newline), 1)
    } else if c == ':' {
        (Some(TokenTypeV::Colon), 1)
    } else if c == ',' {
        (Some(TokenTypeV::Comma), 1)
    } else if c == '=' {
        (Some(TokenTypeV::Equals), 1)
    } else if c == '{' {
        (Some(TokenTypeV::LeftBrace), 1)
    } else if c == '[' {
        (Some(TokenTypeV::LeftBracket), 1)
    } else if c == '(' {
        (Some(TokenTypeV::LeftParen), 1)
    } else if c == '}' {
        (Some(TokenTypeV::RightBrace), 1)
    } else if c == ']' {
        (Some(TokenTypeV::RightBracket), 1)
    } else if c == ')' {
        (Some(TokenTypeV::RightParen), 1)
    } else if c == '+' {
        (Some(TokenTypeV::Plus), 1)
    } else if c == '*' {
        (Some(TokenTypeV::Multiply), 1)
    } else if c == '-' {
        (Some(TokenTypeV::Minus), 1)
    } else if c == '>' {
        if next_is('=') {
            (Some(TokenTypeV::GreaterThanEquals), 2)
        } else {
            (Some(TokenTypeV::GreaterThan), 1)
        }
    } else if c == '<' {
        if next_is('=') {
            (Some(TokenTypeV::LessThanEquals), 2)
        } else {
            (Some(TokenTypeV::LessThan), 1)
        }
    } else if c == '/' {
        if next_is('/') {
            (Some(TokenTypeV::Comment), 2 + run_len(s, i + 2, CharClass::NotLineEnd))
        } else if next_is('*') && comment_close(s, i + 2) is Some {
            (Some(TokenTypeV::BlockComment), comment_close(s, i + 2)->0 - i)
        } else {
            (Some(TokenTypeV::Divide), 1)
        }
    } else if c == '"' {
        match string_end(s, i + 1) {
            StrEnd::Closed(e) => (Some(TokenTypeV::String(s.subrange(i + 1, e - 1))), e - i),
            StrEnd::Eof => {
                let content_end = if s.len() - 1 > i + 1 { s.len() - 1 } else { i + 1 };
                (Some(TokenTypeV::UnterminatedString(s.subrange(i + 1, content_end))), s.len() - i)
            },
            StrEnd::Bad => (None, 1),
        }
    } else if is_digit(c) {
        let d = run_len(s, i, CharClass::Digit);
        if i + d + 1 < s.len() && s[i + d] == '.' && is_digit(s[i + d + 1]) {
            let n = d + 1 + run_len(s, i + d + 1, CharClass::Digit);
            (Some(TokenTypeV::Number(s.subrange(i, i + n))), n)
        } else {
            (Some(TokenTypeV::Number(s.subrange(i, i + d))), d)
        }
    } else if is_ident_start(c) {
        let n = run_len(s, i, CharClass::IdentTail);
        if s.subrange(i, i + n) == include_keyword() {
            (Some(TokenTypeV::Include), n)
        } else {
            (Some(TokenTypeV::Identifier(s.subrange(i, i + n))), n)
        }
    } else {
        (None, 1)
    }
}

pub proof fn lemma_run_len_bounds(s: Seq<char>, i: int, cls: CharClass)
    requires
        0 <= i <= s.len(),
    ensures
        0 <= run_len(s, i, cls) <= s.len() - i,
        run_len(s, i, cls) < s.len() - i ==> !in_class(cls, s[i + run_len(s, i, cls)]),
        forall|k: int| i <= k < i + run_len(s, i, cls) ==> in_class(cls, #[trigger] s[k]),
    decreases s.len() - i,
{
    if i < s.len() && in_class(cls, s[i]) {
        lemma_run_len_bounds(s, i + 1, cls);
    }
}

pub proof fn lemma_comment_close_bounds(s: Seq<char>, j: int)
    requires
        0 <= j,
    ensures
        comment_close(s, j) matches Some(e) ==> j + 2 <= e <= s.len(),
    decreases s.len() - j,
{
    if j + 1 < s.len() && !(s[j] == '*' && s[j + 1] == '/') {
        lemma_comment_close_bounds(s, j + 1);
    }
}

pub proof fn lemma_string_end_bounds(s: Seq<char>, j: int)
    requires
        0 <= j,
    ensures
        string_end(s, j) matches StrEnd::Closed(e) ==> j + 1 <= e <= s.len(),
    decreases s.len() - j,
{
    if j < s.len() && s[j] != '"' {
        if s[j] == '\\' {
            if j + 1 < s.len() && s[j + 1] != '\n' {
                lemma_string_end_bounds(s, j + 2);
            }
        } else {
            lemma_string_end_bounds(s, j + 1);
        }
    }
}

/// A scanned token is never empty and never runs past the text.
pub proof fn lemma_scan_bounds(s: Seq<char>, i: int)
    requires
        0 <= i < s.len(),
    ensures
        1 <= scan(s, i).1 <= s.len() - i,
{
    lemma_run_len_bounds(s, i, CharClass::Blank);
    lemma_run_len_bounds(s, i, CharClass::Digit);
    lemma_run_len_bounds(s, i, CharClass::IdentTail);
    if i + 2 <= s.len() {
        lemma_run_len_bounds(s, i + 2, CharClass::NotLineEnd);
    }
    lemma_comment_close_bounds(s, i + 2);
    lemma_string_end_bounds(s, i + 1);
    let d = run_len(s, i, CharClass::Digit);
    if 0 <= i + d + 1 < s.len() {
        lemma_run_len_bounds(s, i + d + 1, CharClass::Digit);
    }
}

fn in_class_exec(cls: &CharClass, c: char) -> (r: bool)
    ensures
        r == in_class(*cls, c),
{
    match cls {
        CharClass::Blank => c == ' ' || c == '\t' || c == '\x0c' || c == '\r',
        CharClass::Digit => '0' <= c && c <= '9',
        CharClass::IdentTail => ('A' <= c && c <= 'Z') || ('a' <= c && c <= 'z') || c == '_' || (
        '0' <= c && c <= '9') || c == '-',
        CharClass::NotLineEnd => c != '\r' && c != '\n',
    }
}

/// The index just past the run of class `cls` that starts at `i`.
fn run_end(v: &Vec<char>, i: usize, cls: CharClass) -> (e: usize)
    requires
        i <= v.len(),
    ensures
        e == i + run_len(v@, i as int, cls),
        e <= v.len(),
{
    let mut j = i;
    while j < v.len() && in_class_exec(&cls, v[j])
        invariant
            i <= j <= v.len(),
            i + run_len(v@, i as int, cls) == j + run_len(v@, j as int, cls),
        decreases v.len() - j,
    {
        j = j + 1;
    }
    proof {
        lemma_run_len_bounds(v@, i as int, cls);
    }
    j
}

fn find_comment_close(v: &Vec<char>, j: usize) -> (r: Option<usize>)
    requires
        j <= v.len(),
    ensures
        match r {
            Some(e) => comment_close(v@, j as int) == Some(e as int),
            None => comment_close(v@, j as int) is None,
        },
{
    let mut k = j;
    while v.len() - k > 1
        invariant
            j <= k <= v.len(),
            comment_close(v@, j as int) == comment_close(v@, k as int),
        decreases v.len() - k,
    {
        if v[k] == '*' && v[k + 1] == '/' {
            return Some(k + 2);
        }
        k = k + 1;
    }
    None
}

enum StrEndExec {
    Closed(usize),
    Eof,
    Bad,
}

fn find_string_end(v: &Vec<char>, j: usize) -> (r: StrEndExec)
    requires
        j <= v.len(),
    ensures
        match r {
            StrEndExec::Closed(e) => string_end(v@, j as int) == StrEnd::Closed(e as int),
            StrEndExec::Eof => string_end(v@, j as int) == StrEnd::Eof,
            StrEndExec::Bad => string_end(v@, j as int) == StrEnd::Bad,
        },
{
    let mut k = j;
    while k < v.len()
        invariant
            j <= k,
            k <= v.len() + 1,
            string_end(v@, j as int) == string_end(v@, k as int),
        decreases v.len() + 1 - k,
    {
        if v[k] == '"' {
            return StrEndExec::Closed(k + 1);
        } else if v[k] == '\\' {
            if k + 1 < v.len() && v[k + 1] != '\n' {
                k = k + 2;
            } else {
                return StrEndExec::Bad;
            }
        } else {
            k = k + 1;
        }
    }
    StrEndExec::Eof
}

pub open spec fn opt_token_view(t: Option<TokenType>) -> Option<TokenTypeV> {
    match t {
        Some(t) => Some(t@),
        None => None,
    }
}

fn is_include_at(v: &Vec<char>, i: usize, n: usize) -> (r: bool)
    requires
        i + n <= v.len(),
    ensures
        r == (v@.subrange(i as int, (i + n) as int) == include_keyword()),
{
    let r = n == 7 && v[i] == 'i' && v[i + 1] == 'n' && v[i + 2] == 'c' && v[i + 3] == 'l' && v[i
        + 4] == 'u' && v[i + 5] == 'd' && v[i + 6] == 'e';
    proof {
        let t = v@.subrange(i as int, (i + n) as int);
        if r {
            assert(t =~= include_keyword());
        } else if n == 7 {
            assert(t != include_keyword()) by {
                if t == include_keyword() {
                    assert(t[0] == 'i' && t[1] == 'n' && t[2] == 'c' && t[3] == 'l');
                    assert(t[4] == 'u' && t[5] == 'd' && t[6] == 'e');
                }
            }
        } else {
            assert(t.len() != include_keyword().len());
        }
    }
    r
}

/// Recognises the token that starts at index `i` of `v`.
pub fn scan_at(v: &Vec<char>, i: usize) -> (r: (Option<TokenType>, usize))
    requires
        i < v.len(),
    ensures
        opt_token_view(r.0) == scan(v@, i as int).0,
        r.1 == scan(v@, i as int).1,
{
    proof {
        lemma_scan_bounds(v@, i as int);
        lemma_string_end_bounds(v@, i + 1);
    }
    let c = v[i];
    let next = if i + 1 < v.len() {
        v[i + 1]
    } else {
        '\0'
    };
    if c == ' ' || c == '\t' || c == '\x0c' || c == '\r' {
        let e = run_end(v, i, CharClass::Blank);
        (Some(TokenType::Whitespace), e - i)
    } else if c == '\n' {
        (Some(TokenType::Newline), 1)
    } else if c == ':' {
        (Some(TokenType::Colon), 1)
    } else if c == ',' {
        (Some(TokenType::Comma), 1)
    } else if c == '=' {
        (Some(TokenType::Equals), 1)
    } else if c == '{' {
        (Some(TokenType::LeftBrace), 1)
    } else if c == '[' {
        (Some(TokenType::LeftBracket), 1)
    } else if c == '(' {
        (Some(TokenType::LeftParen), 1)
    } else if c == '}' {
        (Some(TokenType::RightBrace), 1)
    } else if c == ']' {
        (Some(TokenType::RightBracket), 1)
    } else if c == ')' {
        (Some(TokenType::RightParen), 1)
    } else if c == '+' {
        (Some(TokenType::Plus), 1)
    } else if c == '*' {
        (Some(TokenType::Multiply), 1)
    } else if c == '-' {
        (Some(TokenType::Minus), 1)
    } else if c == '>' {
        if i + 1 < v.len() && next == '=' {
            (Some(TokenType::GreaterThanEquals), 2)
        } else {
            (Some(TokenType::GreaterThan), 1)
        }
    } else if c == '<' {
        if i + 1 < v.len() && next == '=' {
            (Some(TokenType::LessThanEquals), 2)
        } else {
            (Some(TokenType::LessThan), 1)
        }
    } else if c == '/' {
        if i + 1 < v.len() && next == '/' {
            let e = run_end(v, i + 2, CharClass::NotLineEnd);
            (Some(TokenType::Comment), e - i)
        } else if i + 1 < v.len() && next == '*' {
            match find_comment_close(v, i + 2) {
                Some(e) => (Some(TokenType::BlockComment), e - i),
                None => (Some(TokenType::Divide), 1),
            }
        } else {
            (Some(TokenType::Divide), 1)
        }
    } else if c == '"' {
        match find_string_end(v, i + 1) {
            StrEndExec::Closed(e) => {
                let body = string_from_chars(v, i + 1, e - 1);
                (Some(TokenType::String(body)), e - i)
            },
            StrEndExec::Eof => {
                let content_end = if v.len() - 1 > i + 1 {
                    v.len() - 1
                } else {
                    i + 1
                };
                let body = string_from_chars(v, i + 1, content_end);
                (Some(TokenType::UnterminatedString(body)), v.len() - i)
            },
            StrEndExec::Bad => (None, 1),
        }
    } else if '0' <= c && c <= '9' {
        let d_end = run_end(v, i, CharClass::Digit);
        if d_end < v.len() && d_end + 1 < v.len() && v[d_end] == '.' && '0' <= v[d_end + 1] && v[d_end + 1] <= '9' {
            let e = run_end(v, d_end + 1, CharClass::Digit);
            (Some(TokenType::Number(string_from_chars(v, i, e))), e - i)
        } else {
            (Some(TokenType::Number(string_from_chars(v, i, d_end))), d_end - i)
        }
    } else if ('A' <= c && c <= 'Z') || ('a' <= c && c <= 'z') || c == '_' {
        let e = run_end(v, i, CharClass::IdentTail);
        if is_include_at(v, i, e - i) {
            (Some(TokenType::Include), e - i)
        } else {
            (Some(TokenType::Identifier(string_from_chars(v, i, e))), e - i)
        }
    } else {
        (None, 1)
    }
}

} // verus!
