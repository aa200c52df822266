//! Lines of text, their indentation, and text widths in bytes.

use vstd::prelude::*;

use crate::lexer::bytes::{lemma_width_sum_utf8, width_sum};
use crate::text::{chars_of, push_char, push_str, utf8_len};

verus! {

/// The index of the first line feed in `s`, or -1.
pub open spec fn first_nl(s: Seq<char>) -> int
    decreases s.len(),
{
    if s.len() == 0 {
        -1
    } else if s[0] == '\n' {
        0
    } else {
        let r = first_nl(s.drop_first());
        if r < 0 {
            -1
        } else {
            r + 1
        }
    }
}

/// `l` without one carriage return at its end.
pub open spec fn strip_cr(l: Seq<char>) -> Seq<char> {
    if l.len() > 0 && l.last() == '\r' {
        l.drop_last()
    } else {
        l
    }
}

/// The lines of `s`, as `str::lines` yields them: split after each line
/// feed, each line without its line feed and the carriage return before it;
/// a last line with no line feed is kept as it is, and nothing follows a
/// final line feed.
pub open spec fn lines_of(s: Seq<char>) -> Seq<Seq<char>>
    decreases s.len(),
{
    if s.len() == 0 {
        Seq::empty()
    } else {
        let i = first_nl(s);
        if i < 0 {
            seq![s]
        } else {
            proof {
                lemma_first_nl(s);
            }
            seq![strip_cr(s.take(i))] + lines_of(s.skip(i + 1))
        }
    }
}

/// `first_nl` finds the first line feed, if any.
pub proof fn lemma_first_nl(s: Seq<char>)
    ensures
        -1 <= first_nl(s) < s.len(),
        first_nl(s) >= 0 ==> s[first_nl(s)] == '\n',
        forall|j: int| 0 <= j < s.len() && (first_nl(s) < 0 || j < first_nl(s)) ==> s[j] != '\n',
    decreases s.len(),
{
    if s.len() > 0 && s[0] != '\n' {
        lemma_first_nl(s.drop_first());
        assert forall|j: int| 0 <= j < s.len() && (first_nl(s) < 0 || j < first_nl(s)) implies s[j] != '\n' by {
            if j > 0 {
                assert(s.drop_first()[j - 1] == s[j]);
            }
        }
    }
}

/// A line feed at `i` with none before it is the first.
pub proof fn lemma_first_nl_at(s: Seq<char>, i: int)
    requires
        0 <= i < s.len(),
        s[i] == '\n',
        forall|j: int| 0 <= j < i ==> s[j] != '\n',
    ensures
        first_nl(s) == i,
    decreases i,
{
    if i > 0 {
        assert(s.drop_first()[i - 1] == s[i]);
        assert forall|j: int| 0 <= j < i - 1 implies s.drop_first()[j] != '\n' by {
            assert(s.drop_first()[j] == s[j + 1]);
        }
        lemma_first_nl_at(s.drop_first(), i - 1);
    }
}

/// A text with no line feed has none.
pub proof fn lemma_first_nl_none(s: Seq<char>)
    requires
        forall|j: int| 0 <= j < s.len() ==> s[j] != '\n',
    ensures
        first_nl(s) == -1,
    decreases s.len(),
{
    if s.len() > 0 {
        assert forall|j: int| 0 <= j < s.len() - 1 implies s.drop_first()[j] != '\n' by {
            assert(s.drop_first()[j] == s[j + 1]);
        }
        lemma_first_nl_none(s.drop_first());
    }
}

/// The lines, each after four spaces, joined by line feeds.
pub open spec fn indent_join(ls: Seq<Seq<char>>) -> Seq<char>
    decreases ls.len(),
{
    if ls.len() == 0 {
        Seq::empty()
    } else if ls.len() == 1 {
        "    "@ + ls[0]
    } else {
        indent_join(ls.drop_last()) + "\n"@ + "    "@ + ls.last()
    }
}

/// Each line of `s` indented by four spaces.
pub open spec fn indent_lines(s: Seq<char>) -> Seq<char> {
    indent_join(lines_of(s))
}

/// Whether `s` has more than one line.
pub open spec fn multiline(s: Seq<char>) -> bool {
    lines_of(s).len() > 1
}

/// The lines of `v[start..]`, given that it holds no line feed before `i`.
proof fn lemma_lines_step(v: Seq<char>, start: int, i: int)
    requires
        0 <= start <= i < v.len(),
        v[i] == '\n',
        forall|j: int| start <= j < i ==> v[j] != '\n',
    ensures
        lines_of(v.skip(start)) == seq![strip_cr(v.subrange(start, i))] + lines_of(v.skip(i + 1)),
{
    let t = v.skip(start);
    assert forall|j: int| 0 <= j < i - start implies t[j] != '\n' by {
        assert(t[j] == v[start + j]);
    }
    lemma_first_nl_at(t, i - start);
    assert(t.take(i - start) =~= v.subrange(start, i));
    assert(t.skip(i - start + 1) =~= v.skip(i + 1));
}

/// The lines of `v[start..]` when it holds no line feed.
proof fn lemma_lines_last(v: Seq<char>, start: int)
    requires
        0 <= start <= v.len(),
        forall|j: int| start <= j < v.len() ==> v[j] != '\n',
    ensures
        lines_of(v.skip(start)) == (if start < v.len() {
            seq![v.skip(start)]
        } else {
            Seq::<Seq<char>>::empty()
        }),
{
    let t = v.skip(start);
    if start < v.len() {
        assert forall|j: int| 0 <= j < t.len() implies t[j] != '\n' by {
            assert(t[j] == v[start + j]);
        }
        lemma_first_nl_none(t);
    }
}

/// The chars `v[from..to]` without a carriage return at the end, appended.
fn push_line(out: &mut String, v: &Vec<char>, from: usize, to: usize)
    requires
        from <= to <= v.len(),
    ensures
        final(out)@ == old(out)@ + strip_cr(v@.subrange(from as int, to as int)),
{
    let end = if to > from && v[to - 1] == '\r' {
        to - 1
    } else {
        to
    };
    let mut k = from;
    while k < end
        invariant
            from <= k <= end <= to <= v.len(),
            out@ == old(out)@ + v@.subrange(from as int, k as int),
        decreases end - k,
    {
        push_char(out, v[k]);
        k = k + 1;
        assert(out@ =~= old(out)@ + v@.subrange(from as int, k as int));
    }
    assert(v@.subrange(from as int, end as int) =~= strip_cr(v@.subrange(from as int, to as int)));
}

/// Each line of `s` indented by four spaces, joined by line feeds.
pub fn indent_text(s: &str) -> (r: String)
    ensures
        r@ == indent_lines(s@),
{
    let v = chars_of(s);
    let n = v.len();
    let mut out = String::new();
    let mut count: usize = 0;
    let mut start: usize = 0;
    let mut i: usize = 0;
    let ghost mut done: Seq<Seq<char>> = Seq::empty();
    proof {
        assert(v@.skip(0) =~= v@);
        assert(done + lines_of(v@.skip(0)) =~= lines_of(s@));
    }
    while i < n
        invariant
            v@ == s@,
            n == v@.len(),
            start <= i <= n,
            forall|j: int| start <= j < i ==> v@[j] != '\n',
            lines_of(s@) == done + lines_of(v@.skip(start as int)),
            out@ == indent_join(done),
            count == done.len(),
            count <= start,
        decreases n - i,
    {
        if v[i] == '\n' {
            proof {
                lemma_lines_step(v@, start as int, i as int);
            }
            let ghost line = strip_cr(v@.subrange(start as int, i as int));
            if count > 0 {
                push_str(&mut out, "\n");
            }
            push_str(&mut out, "    ");
            push_line(&mut out, &v, start, i);
            proof {
                let d2 = done.push(line);
                assert(d2.drop_last() =~= done);
                assert(lines_of(s@) =~= d2 + lines_of(v@.skip(i + 1)));
                assert(out@ =~= indent_join(d2));
                done = d2;
            }
            count = count + 1;
            start = i + 1;
        }
        i = i + 1;
    }
    proof {
        lemma_lines_last(v@, start as int);
    }
    if start < n {
        if count > 0 {
            push_str(&mut out, "\n");
        }
        push_str(&mut out, "    ");
        let mut k = start;
        let ghost before = out@;
        while k < n
            invariant
                start <= k <= n,
                n == v@.len(),
                out@ == before + v@.subrange(start as int, k as int),
            decreases n - k,
        {
            push_char(&mut out, v[k]);
            k = k + 1;
            assert(out@ =~= before + v@.subrange(start as int, k as int));
        }
        proof {
            let d2 = done.push(v@.skip(start as int));
            assert(d2.drop_last() =~= done);
            assert(v@.subrange(start as int, n as int) =~= v@.skip(start as int));
            assert(lines_of(s@) =~= d2);
            assert(out@ =~= indent_join(d2));
        }
    } else {
        proof {
            assert(lines_of(s@) =~= done);
        }
    }
    out
}

/// Whether `s` has more than one line.
pub fn is_multiline(s: &str) -> (r: bool)
    ensures
        r == multiline(s@),
{
    let v = chars_of(s);
    let n = v.len();
    let mut count: usize = 0;
    let mut start: usize = 0;
    let mut i: usize = 0;
    let ghost mut done: Seq<Seq<char>> = Seq::empty();
    proof {
        assert(v@.skip(0) =~= v@);
        assert(done + lines_of(v@.skip(0)) =~= lines_of(s@));
    }
    while i < n
        invariant
            v@ == s@,
            n == v@.len(),
            start <= i <= n,
            forall|j: int| start <= j < i ==> v@[j] != '\n',
            lines_of(s@) == done + lines_of(v@.skip(start as int)),
            count == done.len(),
            count <= start,
        decreases n - i,
    {
        if v[i] == '\n' {
            proof {
                lemma_lines_step(v@, start as int, i as int);
                let d2 = done.push(strip_cr(v@.subrange(start as int, i as int)));
                assert(lines_of(s@) =~= d2 + lines_of(v@.skip(i + 1)));
                done = d2;
            }
            count = count + 1;
            start = i + 1;
        }
        i = i + 1;
    }
    proof {
        lemma_lines_last(v@, start as int);
    }
    if start < n {
        count >= 1
    } else {
        count > 1
    }
}

/// The number of bytes of `s`, or `u32::MAX` where it is more.
pub open spec fn width(s: Seq<char>) -> u32 {
    if width_sum(s) > u32::MAX {
        u32::MAX
    } else {
        width_sum(s) as u32
    }
}

/// `w - o`, or 0 where `o` is at least `w`.
pub open spec fn sub_sat(w: u32, o: int) -> u32 {
    if o >= w {
        0
    } else {
        (w - o) as u32
    }
}

/// The byte width of `s`, as [`width`] says.
pub fn width_of(s: &str) -> (r: u32)
    ensures
        r == width(s@),
{
    let n = utf8_len(s);
    proof {
        lemma_width_sum_utf8(s@);
    }
    if n > u32::MAX as usize {
        u32::MAX
    } else {
        n as u32
    }
}

/// The number of lines of `s`.
pub fn line_count(s: &str) -> (r: usize)
    ensures
        r == lines_of(s@).len(),
{
    let v = chars_of(s);
    let n = v.len();
    let mut count: usize = 0;
    let mut start: usize = 0;
    let mut i: usize = 0;
    let ghost mut done: Seq<Seq<char>> = Seq::empty();
    proof {
        assert(v@.skip(0) =~= v@);
        assert(done + lines_of(v@.skip(0)) =~= lines_of(s@));
    }
    while i < n
        invariant
            v@ == s@,
            n == v@.len(),
            start <= i <= n,
            forall|j: int| start <= j < i ==> v@[j] != '\n',
            lines_of(s@) == done + lines_of(v@.skip(start as int)),
            count == done.len(),
            count <= start,
        decreases n - i,
    {
        if v[i] == '\n' {
            proof {
                lemma_lines_step(v@, start as int, i as int);
                let d2 = done.push(strip_cr(v@.subrange(start as int, i as int)));
                assert(lines_of(s@) =~= d2 + lines_of(v@.skip(i + 1)));
                done = d2;
            }
            count = count + 1;
            start = i + 1;
        }
        i = i + 1;
    }
    proof {
        lemma_lines_last(v@, start as int);
    }
    if start < n {
        count + 1
    } else {
        count
    }
}

} // verus!
