//! Formatting requests: the whole document, or a selection re-laid out and
//! indented to where it starts.

use vstd::prelude::*;

use crate::lexer::token::Token;
use crate::lsp::diagnostics::{LspPosition, LspRange};
use crate::lsp::document::{
    doc_token, overlapping_spec, token_at, token_line_end, token_line_points, token_points, tokens_overlapping, Document,
};
use crate::lsp::miniformat::{miniformat, miniformat_spec};
use crate::parser::ast::Module;
use crate::lsp::lines::{first_nl, lemma_first_nl, lemma_first_nl_at, lemma_first_nl_none};
use crate::text::{char_is_whitespace, chars_of, is_whitespace_char, owned, push_char, push_str};

verus! {

/// What formatting a whole document gives: its text as it is.
pub fn formatter_run(text: &str) -> (r: String)
    ensures
        r@ == text@,
{
    owned(text)
}

/// The edit that formats a whole document: none, as formatting leaves the
/// text as it is.
pub fn formatting_edit(text: &str) -> (r: Option<(LspRange, String)>)
    ensures
        r is None,
{
    let new_text = formatter_run(text);
    let old_text = owned(text);
    if new_text == old_text {
        None
    } else {
        let n = crate::lsp::lines::line_count(text);
        let n32: u32 = if n > u32::MAX as usize {
            u32::MAX
        } else {
            n as u32
        };
        Some((
            LspRange {
                start: LspPosition { line: 0, character: 0 },
                end: LspPosition { line: n32, character: n32 },
            },
            new_text,
        ))
    }
}

/// The pieces of `s` between line feeds, as `str::split('\n')` gives them:
/// one more than there are line feeds, some possibly empty.
pub open spec fn segments(s: Seq<char>) -> Seq<Seq<char>>
    decreases s.len(),
{
    let i = first_nl(s);
    if i < 0 {
        seq![s]
    } else {
        proof {
            lemma_first_nl(s);
        }
        seq![s.take(i)] + segments(s.skip(i + 1))
    }
}

/// Whether `s` is only white space.
pub open spec fn blank(s: Seq<char>) -> bool {
    forall|i: int| 0 <= i < s.len() ==> is_whitespace_char(#[trigger] s[i])
}

/// A line after the first of a formatted selection: empty where it is only
/// white space, otherwise after the indentation.
pub open spec fn indent_piece(seg: Seq<char>, indent: Seq<char>) -> Seq<char> {
    if blank(seg) {
        Seq::empty()
    } else {
        indent + seg
    }
}

/// The pieces, each as [`indent_piece`] says, joined by line feeds.
pub open spec fn join_indented(segs: Seq<Seq<char>>, indent: Seq<char>) -> Seq<char>
    decreases segs.len(),
{
    if segs.len() == 0 {
        Seq::empty()
    } else if segs.len() == 1 {
        indent_piece(segs[0], indent)
    } else {
        join_indented(segs.drop_last(), indent) + "\n"@ + indent_piece(segs.last(), indent)
    }
}

/// A formatted selection placed at its indentation: its first line as it
/// is, every other line after `indent` (a line of only white space left
/// empty).
pub open spec fn reindent_spec(formatted: Seq<char>, indent: Seq<char>) -> Seq<char> {
    let i = first_nl(formatted);
    if i < 0 {
        formatted
    } else {
        formatted.take(i) + "\n"@ + join_indented(segments(formatted.skip(i + 1)), indent)
    }
}

/// The segments of `v[start..]`, given no line feed before `i`.
proof fn lemma_segments_step(v: Seq<char>, start: int, i: int)
    requires
        0 <= start <= i < v.len(),
        v[i] == '\n',
        forall|j: int| start <= j < i ==> v[j] != '\n',
    ensures
        segments(v.skip(start)) == seq![v.subrange(start, i)] + segments(v.skip(i + 1)),
{
    let t = v.skip(start);
    assert forall|j: int| 0 <= j < i - start implies t[j] != '\n' by {
        assert(t[j] == v[start + j]);
    }
    lemma_first_nl_at(t, i - start);
    assert(t.take(i - start) =~= v.subrange(start, i));
    assert(t.skip(i - start + 1) =~= v.skip(i + 1));
}

/// The segments of `v[start..]` when it holds no line feed.
proof fn lemma_segments_last(v: Seq<char>, start: int)
    requires
        0 <= start <= v.len(),
        forall|j: int| start <= j < v.len() ==> v[j] != '\n',
    ensures
        segments(v.skip(start)) == seq![v.skip(start)],
{
    let t = v.skip(start);
    assert forall|j: int| 0 <= j < t.len() implies t[j] != '\n' by {
        assert(t[j] == v[start + j]);
    }
    lemma_first_nl_none(t);
}

/// Appends `v[from..to]` as [`indent_piece`] says.
fn push_piece(out: &mut String, v: &Vec<char>, from: usize, to: usize, indent: &str)
    requires
        from <= to <= v.len(),
    ensures
        final(out)@ == old(out)@ + indent_piece(v@.subrange(from as int, to as int), indent@),
{
    let mut all_blank = true;
    let mut k = from;
    while k < to
        invariant
            from <= k <= to <= v.len(),
            all_blank == forall|j: int| from <= j < k ==> is_whitespace_char(#[trigger] v@[j]),
        decreases to - k,
    {
        if !char_is_whitespace(v[k]) {
            all_blank = false;
        }
        k = k + 1;
    }
    let ghost seg = v@.subrange(from as int, to as int);
    proof {
        assert(all_blank == blank(seg)) by {
            if all_blank {
                assert forall|i: int| 0 <= i < seg.len() implies is_whitespace_char(#[trigger] seg[i]) by {
                    assert(seg[i] == v@[from + i]);
                }
            } else {
                let j = choose|j: int| from <= j < to && !is_whitespace_char(#[trigger] v@[j]);
                assert(seg[j - from] == v@[j]);
            }
        }
    }
    if !all_blank {
        push_str(out, indent);
        let mut k = from;
        let ghost base = out@;
        while k < to
            invariant
                from <= k <= to <= v.len(),
                out@ == base + v@.subrange(from as int, k as int),
            decreases to - k,
        {
            push_char(out, v[k]);
            k = k + 1;
            assert(out@ =~= base + v@.subrange(from as int, k as int));
        }
    } else {
        assert(old(out)@ + indent_piece(seg, indent@) =~= old(out)@);
    }
}

/// Places a formatted selection at its indentation, as [`reindent_spec`]
/// says.
pub fn reindent(formatted: &str, indent: &str) -> (r: String)
    ensures
        r@ == reindent_spec(formatted@, indent@),
{
    let v = chars_of(formatted);
    let n = v.len();
    let mut i: usize = 0;
    while i < n && v[i] != '\n'
        invariant
            v@ == formatted@,
            n == v@.len(),
            i <= n,
            forall|j: int| 0 <= j < i ==> v@[j] != '\n',
        decreases n - i,
    {
        i = i + 1;
    }
    if i == n {
        proof {
            lemma_first_nl_none(v@);
        }
        return owned(formatted);
    }
    proof {
        lemma_first_nl_at(v@, i as int);
    }
    let mut out = String::new();
    let mut k: usize = 0;
    while k < i
        invariant
            k <= i < n,
            n == v@.len(),
            out@ == v@.take(k as int),
        decreases i - k,
    {
        push_char(&mut out, v[k]);
        k = k + 1;
        assert(out@ =~= v@.take(k as int));
    }
    push_str(&mut out, "\n");
    let ghost head = out@;
    let ghost tail = v@.skip(i + 1);
    let mut start: usize = i + 1;
    let mut j: usize = i + 1;
    let mut count: usize = 0;
    let ghost mut done: Seq<Seq<char>> = Seq::empty();
    proof {
        assert(v@.skip(start as int) =~= tail);
        assert(done + segments(v@.skip(start as int)) =~= segments(tail));
        assert(head + join_indented(done, indent@) =~= head);
    }
    while j < n
        invariant
            i + 1 <= start <= j <= n,
            n == v@.len(),
            forall|q: int| start <= q < j ==> v@[q] != '\n',
            segments(tail) == done + segments(v@.skip(start as int)),
            out@ == head + join_indented(done, indent@),
            count == done.len(),
            count <= start,
        decreases n - j,
    {
        if v[j] == '\n' {
            proof {
                lemma_segments_step(v@, start as int, j as int);
            }
            let ghost seg = v@.subrange(start as int, j as int);
            if count > 0 {
                push_str(&mut out, "\n");
            }
            push_piece(&mut out, &v, start, j, indent);
            proof {
                let d2 = done.push(seg);
                assert(d2.drop_last() =~= done);
                assert(segments(tail) =~= d2 + segments(v@.skip(j + 1)));
                assert(out@ =~= head + join_indented(d2, indent@));
                done = d2;
            }
            count = count + 1;
            start = j + 1;
        }
        j = j + 1;
    }
    proof {
        lemma_segments_last(v@, start as int);
    }
    if count > 0 {
        push_str(&mut out, "\n");
    }
    push_piece(&mut out, &v, start, n, indent);
    proof {
        let d2 = done.push(v@.skip(start as int));
        assert(v@.subrange(start as int, n as int) =~= v@.skip(start as int));
        assert(d2.drop_last() =~= done);
        assert(segments(tail) =~= d2);
        assert(out@ =~= head + join_indented(d2, indent@));
        assert(v@.take(i as int) + "\n"@ + join_indented(segments(tail), indent@) =~= out@);
    }
    out
}

/// The position after the last token of a line: after every position
/// that holds a token, with the one just before it holding one; 0 for a
/// line without tokens.
pub open spec fn is_line_end(m: Map<u32, Token>, r: u32) -> bool {
    &&& forall|k: u32| m.dom().contains(k) ==> k < r
    &&& r > 0 ==> m.dom().contains((r - 1) as u32)
    &&& r == 0 ==> m.dom().is_empty()
}

/// A line has one such end.
pub proof fn lemma_line_end_unique(m: Map<u32, Token>, a: u32, b: u32)
    requires
        is_line_end(m, a),
        is_line_end(m, b),
    ensures
        a == b,
{
    if a < b {
        assert(m.dom().contains((b - 1) as u32));
    } else if b < a {
        assert(m.dom().contains((a - 1) as u32));
    }
}

/// The end of a selection moved back over empty line starts: while it is
/// at the start of a line after the selection's first, it moves to the end
/// of the line before.
pub open spec fn adjusted_end(lines: Seq<Map<u32, Token>>, start_line: u32, end: LspPosition) -> LspPosition
    decreases end.line,
{
    if end.line > start_line && end.character == 0 && end.line - 1 < lines.len() {
        let prev = (end.line - 1) as u32;
        let ch = choose|r: u32| is_line_end(lines[prev as int], r);
        adjusted_end(lines, start_line, LspPosition { line: prev, character: ch })
    } else {
        end
    }
}

/// Moves the end of a selection as [`adjusted_end`] says. `requires`
/// leaves out an end at the start of a line past the document's last, where
/// the lines before it would be looked up in vain.
pub fn adjust_selection_end(doc: &Document, start_line: u32, end: LspPosition) -> (r: LspPosition)
    requires
        end.line > start_line && end.character == 0 ==> end.line <= doc.tokens@.len(),
    ensures
        r == adjusted_end(crate::lsp::document::token_line_points(doc.tokens@), start_line, end),
{
    let ghost lines = crate::lsp::document::token_line_points(doc.tokens@);
    let mut pos = end;
    while pos.line > start_line && pos.character == 0
        invariant
            lines == crate::lsp::document::token_line_points(doc.tokens@),
            lines.len() == doc.tokens@.len(),
            pos.line > start_line && pos.character == 0 ==> pos.line <= doc.tokens@.len(),
            adjusted_end(lines, start_line, pos) == adjusted_end(lines, start_line, end),
        decreases pos.line,
    {
        let line = pos.line - 1;
        let ch = token_line_end(&doc.tokens[line as usize]);
        proof {
            assert(lines[line as int] == token_points(doc.tokens@[line as int]));
            assert(is_line_end(lines[line as int], ch));
            let c = choose|r: u32| is_line_end(lines[line as int], r);
            lemma_line_end_unique(lines[line as int], c, ch);
        }
        pos = LspPosition { line, character: ch };
    }
    pos
}

/// The first position of a selection's line `l` that belongs to it.
pub open spec fn window_start(start: LspPosition, l: int) -> int {
    if l == start.line {
        start.character as int
    } else {
        0
    }
}

/// The position after the last of a selection's line `l` that belongs to
/// it: the selection's end on its last line, else the end of the line.
pub open spec fn window_end(lines: Seq<Map<u32, Token>>, end: LspPosition, l: int) -> int {
    if l == end.line {
        end.character as int
    } else {
        (choose|r: u32| is_line_end(lines[l], r)) as int
    }
}

/// The tokens of a selection from its line `l` on: for each line up to the
/// end's, what [`overlapping_spec`] gives of the line's window, in order.
pub open spec fn selection_from(lines: Seq<Map<u32, Token>>, start: LspPosition, end: LspPosition, l: int) -> Seq<Token>
    decreases end.line - l + 1,
{
    if l > end.line {
        seq![]
    } else {
        overlapping_spec(lines[l], window_start(start, l) as u32, window_end(lines, end, l) as u32) + selection_from(
            lines,
            start,
            end,
            l + 1,
        )
    }
}

/// The tokens of a selection, line by line from the start's line to the
/// end's, each line's in the order of their positions (see
/// [`selection_from`]). An error where the selection reaches past the last
/// line.
pub fn selection_tokens(doc: &Document, start: LspPosition, end: LspPosition) -> (r: Result<Vec<Token>, ()>)
    ensures
        r is Err <==> (start.line <= end.line && end.line >= doc.tokens@.len()),
        r matches Ok(v) ==> v@ == selection_from(token_line_points(doc.tokens@), start, end, start.line as int),
{
    let ghost lines = token_line_points(doc.tokens@);
    if start.line <= end.line && (end.line as usize) >= doc.tokens.len() {
        return Err(());
    }
    let mut out: Vec<Token> = Vec::new();
    let mut l: u64 = start.line as u64;
    proof {
        assert(out@ + selection_from(lines, start, end, l as int) =~= selection_from(lines, start, end, start.line as int));
    }
    while l <= end.line as u64
        invariant
            start.line <= l,
            l <= end.line as u64 + 1 || l == start.line,
            start.line <= end.line ==> (end.line as usize) < doc.tokens@.len(),
            lines == token_line_points(doc.tokens@),
            lines.len() == doc.tokens@.len(),
            out@ + selection_from(lines, start, end, l as int) == selection_from(lines, start, end, start.line as int),
        decreases end.line as u64 + 1 - l,
    {
        let line = &doc.tokens[l as usize];
        let rightmost = token_line_end(line);
        let first = if l == start.line as u64 {
            start.character
        } else {
            0
        };
        let last = if l == end.line as u64 {
            end.character
        } else {
            rightmost
        };
        proof {
            assert(lines[l as int] == token_points(doc.tokens@[l as int]));
            assert(*line == doc.tokens@[l as int]);
            assert(is_line_end(lines[l as int], rightmost));
            if l != end.line {
                let c = choose|r: u32| is_line_end(lines[l as int], r);
                lemma_line_end_unique(lines[l as int], c, rightmost);
            }
            assert(window_start(start, l as int) == first);
            assert(window_end(lines, end, l as int) == last);
        }
        let found = tokens_overlapping(line, first, last);
        let ghost before = out@;
        let mut more = found;
        let ghost fv = more@;
        out.append(&mut more);
        proof {
            assert(out@ == before + fv);
            assert(fv == overlapping_spec(lines[l as int], first, last));
            assert(selection_from(lines, start, end, l as int) == fv + selection_from(lines, start, end, l + 1));
            assert(before + (fv + selection_from(lines, start, end, l + 1)) =~= out@ + selection_from(lines, start, end, l + 1));
        }
        l = l + 1;
    }
    proof {
        assert(selection_from(lines, start, end, l as int) =~= seq![]);
        assert(out@ + seq![] =~= out@);
    }
    Ok(out)
}

/// Why a selection cannot be formatted.
#[derive(Clone, Copy, Debug, PartialEq, Eq, Structural)]
pub enum SelectionError {
    /// It reaches past the document's last line.
    NonExistentLine,
    /// It does not begin at a token and end just after one.
    IncompleteStatements,
}

/// A selection to format: its tokens, the range the formatted text
/// replaces, and how deep its first line is indented.
#[derive(Debug)]
pub struct FormatSelection {
    pub tokens: Vec<Token>,
    pub range: LspRange,
    pub indent_depth: u32,
}

/// `x` kept within the range of `u32`.
pub open spec fn clamp_u32(x: int) -> u32 {
    if x < 0 {
        0
    } else if x > u32::MAX {
        u32::MAX
    } else {
        x as u32
    }
}

/// The token just before the position `p`, where `p` is not at the start
/// of its line.
pub open spec fn token_before(doc: &Document, p: LspPosition) -> Option<Token> {
    if p.character == 0 {
        None
    } else {
        doc_token(doc, p.line as int, (p.character - 1) as u32)
    }
}

/// What formatting the selection from `start` to `end` works on. The end is
/// first moved back as [`adjusted_end`] says. The selection must begin at a
/// token and end just after one, else it holds incomplete statements. Its
/// tokens are those [`selection_tokens`] finds. The formatted text replaces
/// the range from the first token's start to the last token's end (columns
/// counted from 0), and is indented as deep as the first token's column
/// (less one). `requires` leaves out an end at the start of a line past the
/// document's last, where the lines before it would be looked up in vain.
pub fn selection_to_format(doc: &Document, start: LspPosition, end: LspPosition) -> (r: Result<
    FormatSelection,
    SelectionError,
>)
    requires
        end.line > start.line && end.character == 0 ==> end.line <= doc.tokens@.len(),
    ensures
        ({
            let lines = token_line_points(doc.tokens@);
            let e = adjusted_end(lines, start.line, end);
            let first = doc_token(doc, start.line as int, start.character);
            let last = token_before(doc, e);
            &&& (r == Err::<FormatSelection, SelectionError>(SelectionError::IncompleteStatements)) <==> (
            first is None || last is None)
            &&& (r == Err::<FormatSelection, SelectionError>(SelectionError::NonExistentLine)) <==> (
            first is Some && last is Some && start.line <= e.line && e.line >= doc.tokens@.len())
            &&& r matches Ok(sel) ==> {
                &&& sel.range == LspRange {
                    start: LspPosition {
                        line: start.line,
                        character: clamp_u32(first->0.source_loc.column - 1),
                    },
                    end: LspPosition {
                        line: e.line,
                        character: clamp_u32(last->0.source_loc.column + last->0.source_loc.length - 1),
                    },
                }
                &&& sel.indent_depth == clamp_u32(first->0.source_loc.column - 1)
                &&& sel.tokens@ == selection_from(lines, start, e, start.line as int)
            }
        }),
{
    let e = adjust_selection_end(doc, start.line, end);
    let first = token_at(doc, start.line, start.character);
    let last = if e.character == 0 {
        None
    } else {
        token_at(doc, e.line, e.character - 1)
    };
    match (first, last) {
        (Some(f), Some(l)) => {
            let fc = f.source_loc.column;
            let depth = if fc > 0 {
                fc - 1
            } else {
                0
            };
            let end_sum: u64 = l.source_loc.column as u64 + l.source_loc.length as u64;
            let end_char: u32 = if end_sum == 0 {
                0
            } else if end_sum - 1 > u32::MAX as u64 {
                u32::MAX
            } else {
                (end_sum - 1) as u32
            };
            match selection_tokens(doc, start, e) {
                Err(()) => Err(SelectionError::NonExistentLine),
                Ok(tokens) => Ok(
                    FormatSelection {
                        tokens,
                        range: LspRange {
                            start: LspPosition { line: start.line, character: depth },
                            end: LspPosition { line: e.line, character: end_char },
                        },
                        indent_depth: depth,
                    },
                ),
            }
        },
        _ => Err(SelectionError::IncompleteStatements),
    }
}

/// `n` spaces.
pub open spec fn spaces(n: nat) -> Seq<char> {
    Seq::new(n, |i: int| ' ')
}

/// The width a selection indented `depth` deep may take: 110 less the
/// depth, wrapping below 0 as `u32` arithmetic does.
pub open spec fn selection_width(depth: u32) -> u32 {
    if depth <= 110 {
        (110 - depth) as u32
    } else {
        (0x1_0000_0000 + 110 - depth) as u32
    }
}

/// The text that replaces a selection whose statements are `ast`, indented
/// `indent_depth` deep: the statements laid out by [`miniformat`] within
/// [`selection_width`], and then each line after the first that is not
/// blank indented by that many spaces (see [`reindent_spec`]).
pub fn format_selection(ast: &Module, indent_depth: u32) -> (r: String)
    ensures
        r@ == reindent_spec(
            miniformat_spec(ast, selection_width(indent_depth)),
            spaces(indent_depth as nat),
        ),
{
    let width: u32 = if indent_depth <= 110 {
        110 - indent_depth
    } else {
        (0x1_0000_006e_u64 - indent_depth as u64) as u32
    };
    let mut indent = String::new();
    let mut i: u32 = 0;
    proof {
        assert(indent@ =~= spaces(0));
    }
    while i < indent_depth
        invariant
            i <= indent_depth,
            indent@ == spaces(i as nat),
        decreases indent_depth - i,
    {
        push_char(&mut indent, ' ');
        i = i + 1;
        proof {
            assert(indent@ =~= spaces(i as nat));
        }
    }
    let formatted = miniformat(ast, width);
    reindent(formatted.as_str(), indent.as_str())
}

} // verus!
