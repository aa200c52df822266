//! Turning document text into tokens.

pub mod bytes;
pub mod diagnostics;
pub mod scan;
pub mod source_loc;
pub mod token;
pub mod laws;

use std::ops::Range;

use vstd::prelude::*;

use crate::common::doc_loc::DocLoc;
use crate::lexer::bytes::{
    advance_bytes, byte_off, count_line_feeds, last_nl, lemma_byte_off_split, lemma_last_nl_bounds,
    lemma_nl_count_bounds, lemma_nl_count_split, lemma_width_sum_utf8, nl_count, width_sum,
};
use crate::lexer::diagnostics::{LexerError, LexerErrorV};
use crate::lexer::scan::{lemma_scan_bounds, scan, scan_at};
use crate::lexer::source_loc::{SourceLoc, SourceLocV};
use crate::lexer::token::{Token, TokenType, TokenTypeV, TokenV};
use crate::text::{chars_of, string_from_chars, utf8_len};

verus! {

pub open spec fn u32_max() -> int {
    u32::MAX as int
}

/// Whether lexing from index `i` reaches an unterminated string literal whose
/// body cannot be cut out: a lone quote at the end of the text, or one whose
/// last character takes more than one byte.
pub open spec fn reaches_uncuttable_string(s: Seq<char>, i: int) -> bool
    decreases s.len() - i,
{
    if i < 0 || i >= s.len() {
        false
    } else {
        proof {
            lemma_scan_bounds(s, i);
        }
        let (k, n) = scan(s, i);
        if k matches Some(TokenTypeV::UnterminatedString(_)) {
            n == 1 || (s.last() as u32) >= 0x80
        } else {
            reaches_uncuttable_string(s, i + n)
        }
    }
}

/// The tokens and errors found from character index `i` on, with `line` the
/// current line and `last` the byte offset at which it starts.  Blanks are
/// skipped; a line feed advances the line; a block comment advances it by the
/// line feeds it holds; text that starts no token is an error; the first
/// token whose start, length or end exceeds 32 bits ends lexing.
pub open spec fn lex_from(s: Seq<char>, doc: Seq<char>, i: int, line: int, last: int) -> (
    Seq<TokenV>,
    Seq<LexerErrorV>,
)
    decreases s.len() - i,
{
    if i < 0 || i >= s.len() {
        (seq![], seq![])
    } else {
        proof {
            lemma_scan_bounds(s, i);
        }
        let (k, n) = scan(s, i);
        let start = byte_off(s, i);
        let end = byte_off(s, i + n);
        let len = end - start;
        if k == Some(TokenTypeV::Whitespace) {
            lex_from(s, doc, i + n, line, last)
        } else if start > u32_max() || len > u32_max() || end > u32_max() {
            let size = if start > u32_max() {
                start
            } else if len > u32_max() {
                len
            } else {
                end
            };
            (seq![], seq![LexerErrorV::FileTooBig { size, line_num: line }])
        } else {
            let loc = SourceLocV {
                doc_loc: doc,
                pos: start,
                line,
                column: 1 + start - last,
                length: len,
            };
            match k {
                None => {
                    let rest = lex_from(s, doc, i + n, line, last);
                    (
                        rest.0,
                        seq![LexerErrorV::UnknownToken { culprit: s.subrange(i, i + n), source_loc: loc }]
                            + rest.1,
                    )
                },
                Some(t) => {
                    if t == TokenTypeV::Newline {
                        lex_from(s, doc, i + n, line + 1, end)
                    } else {
                        let feeds = nl_count(s.subrange(i, i + n));
                        let moved = t == TokenTypeV::BlockComment && feeds > 0;
                        let line2 = if moved {
                            line + feeds
                        } else {
                            line
                        };
                        let last2 = if moved {
                            byte_off(s, last_nl(s, i, i + n)) + 1
                        } else {
                            last
                        };
                        let rest = lex_from(s, doc, i + n, line2, last2);
                        (seq![TokenV { token_type: t, source_loc: loc }] + rest.0, rest.1)
                    }
                },
            }
        }
    }
}

/// What `lex` gives for the whole of `s`.
pub open spec fn lex_spec(s: Seq<char>, doc: Seq<char>) -> (Seq<TokenV>, Seq<LexerErrorV>) {
    lex_from(s, doc, 0, 1, 0)
}

pub open spec fn tokens_view(v: Seq<Token>) -> Seq<TokenV> {
    v.map_values(|t: Token| t@)
}

pub open spec fn errors_view(v: Seq<LexerError>) -> Seq<LexerErrorV> {
    v.map_values(|e: LexerError| e@)
}

/// Splits `doc_text` into tokens, with the position of each, and collects the
/// text that forms no token.  Blanks, line feeds and nothing else are
/// dropped.  `requires` leaves out the inputs on which lexing would panic:
/// more than `u32::MAX - 1` line feeds, or an unterminated string literal
/// whose body cannot be cut out.
pub fn lex(doc_loc: &DocLoc, doc_text: &str) -> (r: (Vec<Token>, Vec<LexerError>))
    requires
        nl_count(doc_text@) < u32::MAX,
        !reaches_uncuttable_string(doc_text@, 0),
    ensures
        tokens_view(r.0@) == lex_spec(doc_text@, doc_loc@).0,
        errors_view(r.1@) == lex_spec(doc_text@, doc_loc@).1,
{
    let chars = chars_of(doc_text);
    let _total = utf8_len(doc_text);
    let ghost s = doc_text@;
    let ghost doc = doc_loc@;
    proof {
        lemma_width_sum_utf8(s);
        assert(s.take(0) =~= Seq::<char>::empty());
        assert(byte_off(s, 0) == 0);
        assert(nl_count(s.take(0)) == 0);
    }
    let mut tokens: Vec<Token> = Vec::new();
    let mut errors: Vec<LexerError> = Vec::new();
    let mut line_num: u32 = 1;
    let mut last_line_offset: u32 = 0;
    let mut i: usize = 0;
    let mut byte: usize = 0;
    while i < chars.len()
        invariant
            chars@ == s,
            s == doc_text@,
            doc == doc_loc@,
            width_sum(s) <= usize::MAX,
            nl_count(s) < u32::MAX,
            0 <= i <= s.len(),
            byte == byte_off(s, i as int),
            last_line_offset <= byte,
            1 <= line_num <= 1 + nl_count(s.take(i as int)),
            lex_spec(s, doc).0 == tokens_view(tokens@) + lex_from(
                s,
                doc,
                i as int,
                line_num as int,
                last_line_offset as int,
            ).0,
            lex_spec(s, doc).1 == errors_view(errors@) + lex_from(
                s,
                doc,
                i as int,
                line_num as int,
                last_line_offset as int,
            ).1,
        decreases s.len() - i,
    {
        proof {
            lemma_scan_bounds(s, i as int);
        }
        let (kind, n) = scan_at(&chars, i);
        let end = advance_bytes(&chars, i, n, byte);
        let start = byte;
        proof {
            lemma_byte_off_split(s, i as int, (i + n) as int);
            lemma_byte_off_split(s, (i + n) as int, s.len() as int);
            lemma_nl_count_split(s, i as int, (i + n) as int);
            lemma_nl_count_bounds(s.subrange(i as int, (i + n) as int));
        }
        let is_blank = match &kind {
            Some(TokenType::Whitespace) => true,
            _ => false,
        };
        if is_blank {
            i = i + n;
            byte = end;
            proof {
                lemma_nl_count_bounds(s.subrange((i - n) as int, i as int));
            }
            continue ;
        }
        match as_u32s(start..end) {
            Err(size) => {
                let ghost before = errors@;
                errors.push(LexerError::FileTooBig { size, line_num });
                proof {
                    assert(errors_view(errors@) =~= errors_view(before) + seq![errors@.last()@]);
                    assert(tokens_view(tokens@) + Seq::<TokenV>::empty() =~= tokens_view(tokens@));
                }
                return (tokens, errors);
            },
            Ok((start32, length, end32)) => {
                let column = 1 + start32 - last_line_offset;
                let source_loc = SourceLoc {
                    doc_loc: doc_loc.clone(),
                    pos: start32,
                    line: line_num,
                    column,
                    length,
                };
                match kind {
                    None => {
                        let culprit = string_from_chars(&chars, i, i + n);
                        let ghost before = errors@;
                        errors.push(LexerError::UnknownToken { culprit, source_loc });
                        proof {
                            assert(errors_view(errors@) =~= errors_view(before) + seq![
                                errors@.last()@,
                            ]);
                        }
                    },
                    Some(token_type) => {
                        let is_newline = match &token_type {
                            TokenType::Newline => true,
                            _ => false,
                        };
                        if is_newline {
                            proof {
                                assert(s[i as int] == '\n' && n == 1);
                                let one = s.subrange(i as int, (i + n) as int);
                                assert(one.drop_last().len() == 0);
                                assert(nl_count(one.drop_last()) == 0);
                                assert(nl_count(one) == 1);
                            }
                            line_num = line_num + 1;
                            last_line_offset = end32;
                        } else {
                            let is_block = match &token_type {
                                TokenType::BlockComment => true,
                                _ => false,
                            };
                            if is_block {
                                let (feeds, last_feed) = count_line_feeds(&chars, i, i + n, start);
                                proof {
                                    lemma_nl_count_bounds(s.subrange(i as int, (i + n) as int));
                                    if feeds > 0 {
                                        lemma_last_nl_bounds(s, i as int, (i + n) as int);
                                        let k = last_nl(s, i as int, (i + n) as int);
                                        lemma_byte_off_split(s, k, k + 1);
                                        lemma_byte_off_split(s, k + 1, (i + n) as int);
                                        lemma_byte_off_split(s, i as int, k);
                                    }
                                }
                                if feeds > 0 {
                                    line_num = line_num + as_u32_risky(feeds);
                                    last_line_offset = as_u32_risky(last_feed) + 1;
                                }
                            }
                            let ghost before = tokens@;
                            tokens.push(Token { token_type, source_loc });
                            proof {
                                assert(tokens_view(tokens@) =~= tokens_view(before) + seq![
                                    tokens@.last()@,
                                ]);
                            }
                        }
                    },
                }
            },
        }
        i = i + n;
        byte = end;
    }
    proof {
        assert(tokens_view(tokens@) + Seq::<TokenV>::empty() =~= tokens_view(tokens@));
        assert(errors_view(errors@) + Seq::<LexerErrorV>::empty() =~= errors_view(errors@));
    }
    (tokens, errors)
}

/// Whether `lex` may be given `doc_text`: fewer than `u32::MAX` line feeds,
/// and no unterminated string literal whose body cannot be cut out.
pub fn lexable(doc_text: &str) -> (r: bool)
    ensures
        r == (nl_count(doc_text@) < u32::MAX && !reaches_uncuttable_string(doc_text@, 0)),
{
    let v = chars_of(doc_text);
    let n = v.len();
    let mut count: usize = 0;
    let mut i: usize = 0;
    while i < n
        invariant
            v@ == doc_text@,
            n == v@.len(),
            i <= n,
            count == nl_count(v@.take(i as int)),
            count <= i,
        decreases n - i,
    {
        proof {
            let t = v@.take(i + 1);
            assert(t.drop_last() =~= v@.take(i as int));
        }
        if v[i] == '\n' {
            count = count + 1;
        }
        i = i + 1;
    }
    proof {
        assert(v@.take(i as int) =~= v@);
    }
    if count >= u32::MAX as usize {
        return false;
    }
    let mut j: usize = 0;
    while j < n
        invariant
            v@ == doc_text@,
            n == v@.len(),
            j <= n,
            count == nl_count(doc_text@),
            count < u32::MAX,
            reaches_uncuttable_string(v@, 0) == reaches_uncuttable_string(v@, j as int),
        decreases n - j,
    {
        proof {
            lemma_scan_bounds(v@, j as int);
        }
        let (k, len) = scan_at(&v, j);
        if let Some(TokenType::UnterminatedString(_)) = &k {
            let last = v[n - 1];
            proof {
                assert(scan(v@, j as int).0 matches Some(TokenTypeV::UnterminatedString(_)));
                assert(v@.last() == last);
                assert(reaches_uncuttable_string(v@, j as int) == (len == 1 || (last as u32) >= 0x80));
            }
            return !(len == 1 || (last as u32) >= 0x80);
        }
        proof {
            assert(!(scan(v@, j as int).0 matches Some(TokenTypeV::UnterminatedString(_))));
        }
        j = j + len;
    }
    true
}

/// `value` as a `u32`, or `value` itself where it does not fit.
pub fn as_u32(value: usize) -> (r: Result<u32, usize>)
    ensures
        value <= u32::MAX ==> r == Ok::<u32, usize>(value as u32),
        value > u32::MAX ==> r == Err::<u32, usize>(value),
{
    if value <= 4294967295usize {
        Ok(value as u32)
    } else {
        Err(value)
    }
}

/// `value` cut to its low 32 bits.
pub fn as_u32_risky(value: usize) -> (r: u32)
    ensures
        value <= u32::MAX ==> r == value,
        r == value as u32,
{
    value as u32
}

/// The start, length and end of `span` as `u32`s, or the first of them that
/// does not fit.
pub fn as_u32s(span: Range<usize>) -> (r: Result<(u32, u32, u32), usize>)
    requires
        span.start <= span.end,
    ensures
        match r {
            Ok((s, l, e)) => span.start <= u32::MAX && span.end - span.start <= u32::MAX
                && span.end <= u32::MAX && s == span.start && l == span.end - span.start && e
                == span.end,
            Err(size) => if span.start > u32::MAX {
                size == span.start
            } else if span.end - span.start > u32::MAX {
                size == span.end - span.start
            } else {
                span.end > u32::MAX && size == span.end
            },
        },
{
    let start = as_u32(span.start)?;
    let len = as_u32(span.end - span.start)?;
    let end = as_u32(span.end)?;
    Ok((start, len, end))
}

} // verus!
