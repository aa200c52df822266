//! Small verified helpers for building and reading strings.

use vstd::prelude::*;
use vstd::string::StringExecFns;

verus! {

broadcast use vstd::string::group_string_axioms;

/// Appends one character to a string; wraps `String::push`, whose
/// documented effect is to add the character at the end.
#[verifier::external_body]
pub(crate) fn push_char(s: &mut String, c: char)
    ensures
        final(s)@ == old(s)@.push(c),
{
    s.push(c);
}

/// Appends a string slice to a string.
pub fn push_str(s: &mut String, t: &str)
    ensures
        final(s)@ == old(s)@ + t@,
{
    s.append(t);
}

/// A new string holding the characters of `t`.
pub fn owned(t: &str) -> (r: String)
    ensures
        r@ == t@,
{
    String::from_str(t)
}

/// The characters of a string slice, in order.
pub fn chars_of(s: &str) -> (v: Vec<char>)
    ensures
        v@ == s@,
{
    let mut v: Vec<char> = Vec::new();
    for c in it: s.chars()
        invariant
            v@ == it.seq().take(it.index()),
            it.seq() == s@,
    {
        v.push(c);
    }
    v
}

/// Builds a string out of the characters `v[from..to]`.
pub fn string_from_chars(v: &Vec<char>, from: usize, to: usize) -> (s: String)
    requires
        from <= to <= v.len(),
    ensures
        s@ == v@.subrange(from as int, to as int),
{
    let mut s = String::new();
    let mut k = from;
    while k < to
        invariant
            from <= k <= to <= v.len(),
            s@ == v@.subrange(from as int, k as int),
        decreases to - k,
    {
        push_char(&mut s, v[k]);
        k = k + 1;
        assert(s@ =~= v@.subrange(from as int, k as int));
    }
    s
}

/// Whether a character beyond ASCII has the Unicode Uppercase property.
pub uninterp spec fn uppercase_beyond_ascii(c: char) -> bool;

/// Whether `c` has the Unicode Uppercase property: among ASCII characters
/// exactly `A` to `Z`.
pub open spec fn is_uppercase_char(c: char) -> bool {
    if (c as u32) < 128 {
        'A' <= c && c <= 'Z'
    } else {
        uppercase_beyond_ascii(c)
    }
}

/// Wraps `char::is_uppercase`: whether `c` has the Unicode Uppercase
/// property, as [`is_uppercase_char`] says.
#[verifier::external_body]
pub(crate) fn char_is_uppercase(c: char) -> (r: bool)
    ensures
        r == is_uppercase_char(c),
        (c as u32) >= 128 ==> r == uppercase_beyond_ascii(c),
{
    c.is_uppercase()
}

/// The characters `char::to_lowercase` yields for a character beyond ASCII.
pub uninterp spec fn lowercase_beyond_ascii(c: char) -> Seq<char>;

/// The lower-case mapping of `c`: among ASCII characters, `A` to `Z`
/// become `a` to `z` and the others stay.
pub open spec fn lowercase_chars(c: char) -> Seq<char> {
    if (c as u32) < 128 {
        seq![
            if 'A' <= c && c <= 'Z' {
                ((c as u32) + 32) as char
            } else {
                c
            },
        ]
    } else {
        lowercase_beyond_ascii(c)
    }
}

/// Wraps `char::to_lowercase`, collected into a string: the lower-case
/// mapping of `c` (one or more characters), as [`lowercase_chars`] says.
#[verifier::external_body]
pub(crate) fn char_to_lowercase(c: char) -> (r: String)
    ensures
        r@ == lowercase_chars(c),
        (c as u32) >= 128 ==> r@ == lowercase_beyond_ascii(c),
{
    c.to_lowercase().collect()
}

/// The decimal digit `d`.
pub fn digit_char(d: u8) -> (c: char)
    requires
        d <= 9,
    ensures
        c == (('0' as u32) + d) as char,
{
    match d {
        0 => '0',
        1 => '1',
        2 => '2',
        3 => '3',
        4 => '4',
        5 => '5',
        6 => '6',
        7 => '7',
        8 => '8',
        _ => '9',
    }
}

/// The number of bytes in `s`; wraps `str::len`, documented to return the
/// length of the UTF-8 encoding, which therefore fits in a `usize`.
#[verifier::external_body]
pub(crate) fn utf8_len(s: &str) -> (n: usize)
    ensures
        n == vstd::utf8::encode_utf8(s@).len(),
{
    s.len()
}

/// Whether a character beyond ASCII has the Unicode White_Space property.
pub uninterp spec fn whitespace_beyond_ascii(c: char) -> bool;

/// Whether `c` has the Unicode White_Space property: among ASCII characters
/// exactly space, tab, line feed, vertical tab, form feed and carriage
/// return.
pub open spec fn is_whitespace_char(c: char) -> bool {
    if (c as u32) < 128 {
        c == ' ' || c == '\t' || c == '\n' || (c as u32) == 11 || (c as u32) == 12 || c == '\r'
    } else {
        whitespace_beyond_ascii(c)
    }
}

/// Wraps `char::is_whitespace`: whether `c` has the Unicode White_Space
/// property, as [`is_whitespace_char`] says.
#[verifier::external_body]
pub(crate) fn char_is_whitespace(c: char) -> (r: bool)
    ensures
        r == is_whitespace_char(c),
        (c as u32) >= 128 ==> r == whitespace_beyond_ascii(c),
{
    c.is_whitespace()
}

} // verus!
