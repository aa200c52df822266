//! Byte offsets of characters in UTF-8 text, and line-feed counts.

use vstd::prelude::*;

verus! {

/// The number of bytes that UTF-8 takes for `c`.
pub open spec fn char_width(c: char) -> int {
    vstd::utf8::encode_scalar(c as u32).len() as int
}

/// The number of bytes that UTF-8 takes for `s`.
pub open spec fn width_sum(s: Seq<char>) -> int
    decreases s.len(),
{
    if s.len() == 0 {
        0
    } else {
        char_width(s[0]) + width_sum(s.drop_first())
    }
}

/// The byte offset of the character at index `i`.
pub open spec fn byte_off(s: Seq<char>, i: int) -> int {
    width_sum(s.take(i))
}

/// The number of line feeds in `s`.
pub open spec fn nl_count(s: Seq<char>) -> int
    decreases s.len(),
{
    if s.len() == 0 {
        0
    } else {
        (if s.last() == '\n' {
            1int
        } else {
            0int
        }) + nl_count(s.drop_last())
    }
}

/// The index of the last line feed in `s[lo..hi]`, or `lo - 1` when none.
pub open spec fn last_nl(s: Seq<char>, lo: int, hi: int) -> int
    decreases hi - lo,
{
    if hi <= lo {
        lo - 1
    } else if s[hi - 1] == '\n' {
        hi - 1
    } else {
        last_nl(s, lo, hi - 1)
    }
}

pub proof fn lemma_width_sum_nonneg(s: Seq<char>)
    ensures
        width_sum(s) >= s.len(),
    decreases s.len(),
{
    if s.len() > 0 {
        assert(char_width(s[0]) >= 1);
        lemma_width_sum_nonneg(s.drop_first());
    }
}

pub proof fn lemma_width_sum_append(a: Seq<char>, b: Seq<char>)
    ensures
        width_sum(a + b) == width_sum(a) + width_sum(b),
    decreases a.len(),
{
    if a.len() > 0 {
        assert((a + b).drop_first() =~= a.drop_first() + b);
        lemma_width_sum_append(a.drop_first(), b);
    } else {
        assert(a + b =~= b);
    }
}

/// The widths agree with the UTF-8 encoding that vstd specifies.
pub proof fn lemma_width_sum_utf8(s: Seq<char>)
    ensures
        width_sum(s) == vstd::utf8::encode_utf8(s).len(),
    decreases s.len(),
{
    if s.len() > 0 {
        lemma_width_sum_utf8(s.drop_first());
    }
}

pub proof fn lemma_byte_off_step(s: Seq<char>, i: int)
    requires
        0 <= i < s.len(),
    ensures
        byte_off(s, i + 1) == byte_off(s, i) + char_width(s[i]),
{
    assert(s.take(i + 1) =~= s.take(i) + seq![s[i]]);
    lemma_width_sum_append(s.take(i), seq![s[i]]);
    let one = seq![s[i]];
    assert(one.drop_first() =~= Seq::<char>::empty());
    assert(width_sum(one.drop_first()) == 0);
    assert(width_sum(one) == char_width(s[i]));
}

pub proof fn lemma_byte_off_split(s: Seq<char>, i: int, j: int)
    requires
        0 <= i <= j <= s.len(),
    ensures
        byte_off(s, j) == byte_off(s, i) + width_sum(s.subrange(i, j)),
        byte_off(s, j) - byte_off(s, i) >= j - i,
        byte_off(s, s.len() as int) == width_sum(s),
{
    assert(s.take(j) =~= s.take(i) + s.subrange(i, j));
    lemma_width_sum_append(s.take(i), s.subrange(i, j));
    lemma_width_sum_nonneg(s.subrange(i, j));
    assert(s.take(s.len() as int) =~= s);
}

pub proof fn lemma_nl_count_append(a: Seq<char>, b: Seq<char>)
    ensures
        nl_count(a + b) == nl_count(a) + nl_count(b),
    decreases b.len(),
{
    if b.len() > 0 {
        assert((a + b).drop_last() =~= a + b.drop_last());
        lemma_nl_count_append(a, b.drop_last());
    } else {
        assert(a + b =~= a);
    }
}

pub proof fn lemma_nl_count_bounds(s: Seq<char>)
    ensures
        0 <= nl_count(s) <= s.len(),
    decreases s.len(),
{
    if s.len() > 0 {
        lemma_nl_count_bounds(s.drop_last());
    }
}

pub proof fn lemma_nl_count_split(s: Seq<char>, i: int, j: int)
    requires
        0 <= i <= j <= s.len(),
    ensures
        nl_count(s.take(j)) == nl_count(s.take(i)) + nl_count(s.subrange(i, j)),
        nl_count(s.take(j)) <= nl_count(s),
{
    assert(s.take(j) =~= s.take(i) + s.subrange(i, j));
    lemma_nl_count_append(s.take(i), s.subrange(i, j));
    assert(s =~= s.take(j) + s.subrange(j, s.len() as int));
    lemma_nl_count_append(s.take(j), s.subrange(j, s.len() as int));
    lemma_nl_count_bounds(s.subrange(j, s.len() as int));
}

pub proof fn lemma_last_nl_bounds(s: Seq<char>, lo: int, hi: int)
    requires
        0 <= lo <= hi <= s.len(),
    ensures
        lo - 1 <= last_nl(s, lo, hi) < hi,
        nl_count(s.subrange(lo, hi)) > 0 ==> lo <= last_nl(s, lo, hi) && s[last_nl(s, lo, hi)]
            == '\n',
    decreases hi - lo,
{
    if hi > lo {
        lemma_last_nl_bounds(s, lo, hi - 1);
        assert(s.subrange(lo, hi).drop_last() =~= s.subrange(lo, hi - 1));
    } else {
        assert(s.subrange(lo, hi).len() == 0);
    }
}

/// The number of bytes that UTF-8 takes for `c`.
pub fn char_width_exec(c: char) -> (w: usize)
    ensures
        w == char_width(c),
        1 <= w <= 4,
{
    let v = c as u32;
    if v <= 0x7F {
        1
    } else if v <= 0x7FF {
        2
    } else if 0x800 <= v && v <= 0xFFFF && !(0xD800 <= v && v <= 0xDFFF) {
        3
    } else {
        4
    }
}

/// The byte offset of index `i + n`, given that of index `i`.
pub fn advance_bytes(v: &Vec<char>, i: usize, n: usize, byte: usize) -> (r: usize)
    requires
        i + n <= v.len(),
        byte == byte_off(v@, i as int),
        width_sum(v@) <= usize::MAX,
    ensures
        r == byte_off(v@, (i + n) as int),
{
    let mut k = i;
    let mut b = byte;
    while k < i + n
        invariant
            i <= k <= i + n <= v.len(),
            b == byte_off(v@, k as int),
            width_sum(v@) <= usize::MAX,
        decreases i + n - k,
    {
        proof {
            lemma_byte_off_step(v@, k as int);
            lemma_byte_off_split(v@, (k + 1) as int, v@.len() as int);
            lemma_width_sum_nonneg(v@.subrange((k + 1) as int, v@.len() as int));
        }
        b = b + char_width_exec(v[k]);
        k = k + 1;
    }
    b
}

/// The line feeds in `v[lo..hi]`: their number and the byte offset of the
/// last one.
pub fn count_line_feeds(v: &Vec<char>, lo: usize, hi: usize, byte: usize) -> (r: (usize, usize))
    requires
        lo <= hi <= v.len(),
        byte == byte_off(v@, lo as int),
        width_sum(v@) <= usize::MAX,
    ensures
        r.0 == nl_count(v@.subrange(lo as int, hi as int)),
        r.0 > 0 ==> r.1 == byte_off(v@, last_nl(v@, lo as int, hi as int)),
{
    let mut k = lo;
    let mut b = byte;
    let mut count: usize = 0;
    let mut last_byte: usize = 0;
    while k < hi
        invariant
            lo <= k <= hi <= v.len(),
            b == byte_off(v@, k as int),
            width_sum(v@) <= usize::MAX,
            count == nl_count(v@.subrange(lo as int, k as int)),
            count <= k - lo,
            count > 0 ==> last_byte == byte_off(v@, last_nl(v@, lo as int, k as int)),
        decreases hi - k,
    {
        proof {
            lemma_byte_off_step(v@, k as int);
            lemma_byte_off_split(v@, (k + 1) as int, v@.len() as int);
            lemma_width_sum_nonneg(v@.subrange((k + 1) as int, v@.len() as int));
            assert(v@.subrange(lo as int, (k + 1) as int).drop_last() =~= v@.subrange(
                lo as int,
                k as int,
            ));
        }
        if v[k] == '\n' {
            count = count + 1;
            last_byte = b;
        }
        b = b + char_width_exec(v[k]);
        k = k + 1;
    }
    (count, last_byte)
}

} // verus!
