//! Names rewritten in `kebab-case`.

use vstd::prelude::*;

use crate::text::{char_to_lowercase, char_is_uppercase, chars_of, is_uppercase_char, lowercase_chars, push_char, push_str};

verus! {

/// What the character `c` at index `i` becomes: `_` becomes `-`; an
/// upper-case character becomes its lower case, after a `-` unless it comes
/// first; any other character stays.
pub open spec fn kebab_piece(c: char, i: int) -> Seq<char> {
    if c == '_' {
        seq!['-']
    } else if is_uppercase_char(c) {
        (if i != 0 { seq!['-'] } else { Seq::empty() }) + lowercase_chars(c)
    } else {
        seq![c]
    }
}

/// `s` in `kebab-case`: each character replaced by its [`kebab_piece`].
pub open spec fn kebab_spec(s: Seq<char>) -> Seq<char>
    decreases s.len(),
{
    if s.len() == 0 {
        Seq::empty()
    } else {
        kebab_spec(s.drop_last()) + kebab_piece(s.last(), s.len() - 1)
    }
}

/// `name` in `kebab-case`, as [`kebab_spec`] says.
pub fn kebab_cased(name: &str) -> (r: String)
    ensures
        r@ == kebab_spec(name@),
{
    let cs = chars_of(name);
    let mut out = String::new();
    let mut i: usize = 0;
    while i < cs.len()
        invariant
            cs@ == name@,
            i <= cs@.len(),
            out@ == kebab_spec(cs@.take(i as int)),
        decreases cs@.len() - i,
    {
        let c = cs[i];
        if c == '_' {
            push_char(&mut out, '-');
        } else if char_is_uppercase(c) {
            if i != 0 {
                push_char(&mut out, '-');
            }
            let lower = char_to_lowercase(c);
            push_str(&mut out, lower.as_str());
        } else {
            push_char(&mut out, c);
        }
        proof {
            let t = cs@.take(i + 1);
            assert(t.drop_last() =~= cs@.take(i as int));
            assert(t.last() == c);
            assert(out@ =~= kebab_spec(cs@.take(i as int)) + kebab_piece(c, i as int));
        }
        i = i + 1;
    }
    proof {
        assert(cs@.take(i as int) =~= cs@);
    }
    out
}

/// Whether every character of `s` is ASCII.
pub open spec fn ascii(s: Seq<char>) -> bool {
    forall|i: int| 0 <= i < s.len() ==> (#[trigger] s[i] as u32) < 128
}

/// The kebab-case form of an ASCII name is ASCII, and holds neither an
/// underscore nor an upper-case letter.
pub proof fn lemma_kebab_ascii(s: Seq<char>)
    requires
        ascii(s),
    ensures
        ascii(kebab_spec(s)),
        forall|i: int| 0 <= i < kebab_spec(s).len() ==> #[trigger] kebab_spec(s)[i] != '_' && !is_uppercase_char(kebab_spec(s)[i]),
    decreases s.len(),
{
    if s.len() > 0 {
        assert(ascii(s.drop_last())) by {
            assert forall|i: int| 0 <= i < s.drop_last().len() implies (#[trigger] s.drop_last()[i] as u32) < 128 by {
                assert(s.drop_last()[i] == s[i]);
            }
        }
        lemma_kebab_ascii(s.drop_last());
        let prev = kebab_spec(s.drop_last());
        let c = s.last();
        assert((c as u32) < 128);
        let piece = kebab_piece(c, s.len() - 1);
        assert forall|i: int| 0 <= i < piece.len() implies (#[trigger] piece[i] as u32) < 128 && piece[i] != '_' && !is_uppercase_char(piece[i]) by {
            if c != '_' && is_uppercase_char(c) {
                assert('A' <= c && c <= 'Z');
            }
        }
        let all = kebab_spec(s);
        assert(all == prev + piece);
        assert forall|i: int| 0 <= i < all.len() implies (#[trigger] all[i] as u32) < 128 && all[i] != '_' && !is_uppercase_char(all[i]) by {
            if i < prev.len() {
                assert(all[i] == prev[i]);
            } else {
                assert(all[i] == piece[i - prev.len()]);
            }
        }
    }
}

/// Kebab case leaves a name that is already in it as it is.
pub proof fn lemma_kebab_fixed(s: Seq<char>)
    requires
        forall|i: int| 0 <= i < s.len() ==> #[trigger] s[i] != '_' && !is_uppercase_char(s[i]),
    ensures
        kebab_spec(s) == s,
    decreases s.len(),
{
    if s.len() > 0 {
        assert forall|i: int| 0 <= i < s.drop_last().len() implies #[trigger] s.drop_last()[i] != '_' && !is_uppercase_char(s.drop_last()[i]) by {
            assert(s.drop_last()[i] == s[i]);
        }
        lemma_kebab_fixed(s.drop_last());
        assert(s.drop_last().push(s.last()) =~= s);
    }
}

/// For an ASCII name, the kebab-case form that a naming lint suggests
/// draws neither lint (it has no underscore and no upper-case letter), and
/// taking the kebab-case form again changes nothing.
pub proof fn lemma_kebab_fix_is_lint_free(s: Seq<char>)
    requires
        ascii(s),
    ensures
        !crate::analyzer::expr_analyzer::snake_cased(kebab_spec(s)),
        !crate::analyzer::expr_analyzer::camel_cased(kebab_spec(s)),
        kebab_spec(kebab_spec(s)) == kebab_spec(s),
{
    lemma_kebab_ascii(s);
    lemma_kebab_fixed(kebab_spec(s));
}

} // verus!
