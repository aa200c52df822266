//! What holds of every token the lexer yields.

use vstd::prelude::*;

use crate::lexer::bytes::{byte_off, lemma_byte_off_split, lemma_byte_off_step, lemma_last_nl_bounds, last_nl, nl_count};
use crate::lexer::scan::{lemma_scan_bounds, scan};
use crate::lexer::token::{TokenTypeV, TokenV};
use crate::lexer::{lex_from, lex_spec, u32_max};

verus! {

/// A token has a place: line and column from 1, at least one byte long,
/// ending within 32 bits, and it is neither a line feed nor a blank.
pub open spec fn placed(t: TokenV) -> bool {
    &&& t.source_loc.line >= 1
    &&& t.source_loc.column >= 1
    &&& t.source_loc.length >= 1
    &&& t.source_loc.column - 1 + t.source_loc.length <= u32::MAX
    &&& t.token_type != TokenTypeV::Newline
    &&& t.token_type != TokenTypeV::Whitespace
}

/// `b` comes after `a`: on a later line, or on the same line further right.
pub open spec fn after(a: TokenV, b: TokenV) -> bool {
    b.source_loc.line > a.source_loc.line || (b.source_loc.line == a.source_loc.line
        && b.source_loc.column > a.source_loc.column)
}

/// Each token comes after the one before it.
pub open spec fn in_order(ts: Seq<TokenV>) -> bool {
    forall|j: int| 0 <= j < ts.len() - 1 ==> after(#[trigger] ts[j], ts[j + 1])
}

proof fn lemma_lex_from(s: Seq<char>, doc: Seq<char>, i: int, line: int, last: int)
    requires
        0 <= i,
        line >= 1,
        last >= 0,
        i <= s.len() ==> last <= byte_off(s, i),
    ensures
        forall|j: int| 0 <= j < lex_from(s, doc, i, line, last).0.len() ==> placed(#[trigger] lex_from(s, doc, i, line, last).0[j])
            && lex_from(s, doc, i, line, last).0[j].source_loc.line >= line,
        lex_from(s, doc, i, line, last).0.len() > 0 ==> lex_from(s, doc, i, line, last).0[0].source_loc.line > line || (
        lex_from(s, doc, i, line, last).0[0].source_loc.line == line && lex_from(s, doc, i, line, last).0[0].source_loc.column >= 1 + byte_off(s, i) - last),
        in_order(lex_from(s, doc, i, line, last).0),
    decreases s.len() - i,
{
    if i < s.len() {
        lemma_scan_bounds(s, i);
        let (k, n) = scan(s, i);
        let start = byte_off(s, i);
        let end = byte_off(s, i + n);
        lemma_byte_off_split(s, i, i + n);
        let len = end - start;
        if k == Some(TokenTypeV::Whitespace) {
            lemma_lex_from(s, doc, i + n, line, last);
        } else if start > u32_max() || len > u32_max() || end > u32_max() {
        } else {
            match k {
                None => {
                    lemma_lex_from(s, doc, i + n, line, last);
                },
                Some(t) => {
                    if t == TokenTypeV::Newline {
                        lemma_lex_from(s, doc, i + n, line + 1, end);
                    } else {
                        let feeds = nl_count(s.subrange(i, i + n));
                        let moved = t == TokenTypeV::BlockComment && feeds > 0;
                        let line2 = if moved {
                            line + feeds
                        } else {
                            line
                        };
                        let last2 = if moved {
                            byte_off(s, last_nl(s, i, i + n)) + 1
                        } else {
                            last
                        };
                        if moved {
                            lemma_last_nl_bounds(s, i, i + n);
                            let q = last_nl(s, i, i + n);
                            lemma_byte_off_step(s, q);
                            crate::lexer::bytes::lemma_width_sum_nonneg(s.take(q));
                            lemma_byte_off_split(s, q + 1, i + n);
                        }
                        lemma_lex_from(s, doc, i + n, line2, last2);
                        let rest = lex_from(s, doc, i + n, line2, last2).0;
                        let all = lex_from(s, doc, i, line, last).0;
                        assert(all == seq![all[0]] + rest);
                        assert forall|j: int| 0 <= j < all.len() - 1 implies after(#[trigger] all[j], all[j + 1]) by {
                            if j > 0 {
                                assert(all[j] == rest[j - 1]);
                                assert(all[j + 1] == rest[j]);
                            } else {
                                assert(all[1] == rest[0]);
                            }
                        }
                        assert forall|j: int| 0 <= j < all.len() implies placed(#[trigger] all[j]) && all[j].source_loc.line >= line by {
                            if j > 0 {
                                assert(all[j] == rest[j - 1]);
                            } else {
                                assert(all[0].source_loc.column == 1 + start - last);
                                assert(all[0].source_loc.length == len);
                                assert(all[0].token_type == t);
                            }
                        }
                    }
                },
            }
        }
    }
}

/// Every token the lexer yields has a place (line and column from 1, at
/// least one byte, ending within 32 bits) and is neither a line feed nor a
/// blank; and each comes after the one before it.
pub proof fn lemma_lex_tokens_placed_in_order(s: Seq<char>, doc: Seq<char>)
    ensures
        forall|j: int| 0 <= j < lex_spec(s, doc).0.len() ==> placed(#[trigger] lex_spec(s, doc).0[j]),
        in_order(lex_spec(s, doc).0),
{
    if s.len() > 0 {
        lemma_byte_off_split(s, 0, 0);
    }
    lemma_lex_from(s, doc, 0, 1, 0);
}


/// Whether `c` may begin a name: an ASCII letter or `_`.
pub open spec fn name_start_char(c: char) -> bool {
    ('a' <= c && c <= 'z') || ('A' <= c && c <= 'Z') || c == '_'
}

/// Whether `c` may continue a name: an ASCII letter or digit, `_` or `-`.
pub open spec fn name_char(c: char) -> bool {
    ('a' <= c && c <= 'z') || ('A' <= c && c <= 'Z') || ('0' <= c && c <= '9') || c == '_' || c == '-'
}

/// A name is the longest run of name characters from a letter or `_`: the
/// token that starts there covers every following letter, digit, `_` and
/// `-`, and stops only before another character or the end of the text. It
/// is the keyword `include` where it reads so, else an identifier holding
/// exactly its characters.
pub proof fn law_names_are_longest_runs(s: Seq<char>, i: int)
    requires
        0 <= i < s.len(),
        name_start_char(s[i]),
    ensures
        ({
            let (k, n) = scan(s, i);
            &&& 1 <= n <= s.len() - i
            &&& forall|j: int| i <= j < i + n ==> name_char(#[trigger] s[j])
            &&& i + n == s.len() || !name_char(s[i + n])
            &&& k == (if s.subrange(i, i + n) == seq!['i', 'n', 'c', 'l', 'u', 'd', 'e'] {
                Some(TokenTypeV::Include)
            } else {
                Some(TokenTypeV::Identifier(s.subrange(i, i + n)))
            })
        }),
{
    lemma_scan_bounds(s, i);
    crate::lexer::scan::lemma_run_len_bounds(s, i, crate::lexer::scan::CharClass::IdentTail);
}

} // verus!
