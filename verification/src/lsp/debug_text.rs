//! The textual forms in which tokens, locations and types appear inside
//! diagnostic messages.

use vstd::prelude::*;

use crate::analyzer::function::{Function, ParamInfo};
use crate::analyzer::organic_type::{lemma_params_view, param_view, params_view, OrganicType, ParamV, TypeV};
use crate::lexer::source_loc::{MiniLoc, SourceLoc, SourceLocV};
use crate::lexer::token::{Token, TokenType, TokenTypeV, TokenV};
use crate::text::{digit_char, owned, push_char, push_str};

verus! {

/// The text `format!("{:?}", s)` gives for a string slice `s`.
pub uninterp spec fn str_debug(s: Seq<char>) -> Seq<char>;

/// Whether every character of `s` is printable ASCII other than `"` and
/// `\`.
pub open spec fn plain_printable(s: Seq<char>) -> bool {
    forall|i: int| 0 <= i < s.len() ==> ' ' <= #[trigger] s[i] && s[i] <= '~' && s[i] != '"' && s[i] != '\\'
}

/// Wraps the `Debug` formatting of a string slice (`format!("{:?}", s)`):
/// the text in double quotes, with each character escaped as
/// `char::escape_debug` does. Printable ASCII characters other than `"` and
/// `\` are not escaped.
#[verifier::external_body]
pub(crate) fn quoted(s: &str) -> (r: String)
    ensures
        r@ == str_debug(s@),
        plain_printable(s@) ==> r@ == seq!['"'] + s@ + seq!['"'],
{
    format!("{:?}", s)
}

/// The decimal digit of `d`, for `d` below ten.
pub open spec fn digit(d: nat) -> char {
    (('0' as u32) + d) as char
}

/// `n` in decimal, without leading zeros.
pub open spec fn decimal(n: nat) -> Seq<char>
    decreases n,
{
    if n < 10 {
        seq![digit(n)]
    } else {
        decimal(n / 10) + seq![digit(n % 10)]
    }
}

/// `n` in decimal.
pub fn decimal_text(n: u64) -> (r: String)
    ensures
        r@ == decimal(n as nat),
    decreases n,
{
    if n < 10 {
        let mut r = String::new();
        push_char(&mut r, digit_char(n as u8));
        proof {
            assert(r@ =~= decimal(n as nat));
        }
        r
    } else {
        let mut r = decimal_text(n / 10);
        push_char(&mut r, digit_char((n % 10) as u8));
        proof {
            assert(r@ =~= decimal(n as nat));
        }
        r
    }
}

/// The index of the first `.` of `s` from `k` on, or its length.
pub open spec fn dot_index(s: Seq<char>, k: int) -> int
    decreases s.len() - k,
{
    if k < 0 || k >= s.len() {
        s.len() as int
    } else if s[k] == '.' {
        k
    } else {
        dot_index(s, k + 1)
    }
}

/// The number of `0`s that `s` starts with from index `k`.
pub open spec fn lead_zeros(s: Seq<char>, k: int) -> int
    decreases s.len() - k,
{
    if 0 <= k < s.len() && s[k] == '0' {
        1 + lead_zeros(s, k + 1)
    } else {
        0
    }
}

/// The number of `0`s that `s` ends with.
pub open spec fn trail_zeros(s: Seq<char>) -> int
    decreases s.len(),
{
    if s.len() > 0 && s.last() == '0' {
        1 + trail_zeros(s.drop_last())
    } else {
        0
    }
}

/// The digits of a number literal before its point, without leading zeros.
pub open spec fn whole_digits(s: Seq<char>) -> Seq<char> {
    let ip = s.subrange(0, dot_index(s, 0));
    ip.skip(lead_zeros(ip, 0))
}

/// The digits of a number literal after its point, without trailing zeros.
pub open spec fn fraction_digits(s: Seq<char>) -> Seq<char> {
    let p = dot_index(s, 0);
    let fp = if p < s.len() {
        s.subrange(p + 1, s.len() as int)
    } else {
        seq![]
    };
    fp.take(fp.len() - trail_zeros(fp))
}

/// The significant digits of a number literal: its digits without the
/// point, and without leading and trailing zeros.
pub open spec fn sig_digits(s: Seq<char>) -> Seq<char> {
    let a = whole_digits(s) + fraction_digits(s);
    let t = a.skip(lead_zeros(a, 0));
    t.take(t.len() - trail_zeros(t))
}

/// The decimal exponent of a number literal's first significant digit:
/// the number of digits before the point less one, or, where there are
/// none, less one than minus the zeros after the point.
pub open spec fn sci_exp(s: Seq<char>) -> int {
    let w = whole_digits(s);
    if w.len() > 0 {
        w.len() - 1
    } else {
        -(lead_zeros(fraction_digits(s), 0) + 1)
    }
}

/// The significant digits `d` with the exponent `e` in the form `Debug`
/// writes an `f64` far from 1: the first digit, the others after a point
/// where there are any, `e` and the exponent.
pub open spec fn exp_text(d: Seq<char>, e: int) -> Seq<char> {
    seq![d[0]] + (if d.len() > 1 {
        "."@ + d.skip(1)
    } else {
        seq![]
    }) + "e"@ + (if e < 0 {
        "-"@ + decimal((-e) as nat)
    } else {
        decimal(e as nat)
    })
}

/// How `Debug` writes the `f64` of a number literal `s` (digits, perhaps a
/// point and more digits), with `S` its significant digits and `E` their
/// exponent (see [`sig_digits`] and [`sci_exp`]). Zero is `0.0`. A value
/// of at least 1e309 is out of range, `inf`; one below 1e-324 rounds to
/// `0.0`. Otherwise, with at most 15 significant digits and `E` between
/// -307 and 307 (so that the `f64` keeps the literal's digits, and its
/// shortest form is those digits): from 0.0001 up to below 1e16 the digits
/// before the point without leading zeros (`0` where none are left), a
/// point, and the digits after it without trailing zeros (`0` where none
/// are left); beyond, as [`exp_text`] says. The remaining literals, whose
/// `f64` is rounded, are written as they stand.
pub open spec fn number_debug(s: Seq<char>) -> Seq<char> {
    let w = whole_digits(s);
    let f = fraction_digits(s);
    let d = sig_digits(s);
    let e = sci_exp(s);
    if d.len() == 0 {
        "0.0"@
    } else if e >= 309 {
        "inf"@
    } else if e <= -325 {
        "0.0"@
    } else if d.len() > 15 || e >= 308 || e <= -308 {
        s
    } else if -4 <= e <= 15 {
        (if w.len() == 0 {
            "0"@
        } else {
            w
        }) + "."@ + (if f.len() == 0 {
            "0"@
        } else {
            f
        })
    } else {
        exp_text(d, e)
    }
}

/// Writes a number literal as [`number_debug`] says.
#[verifier::rlimit(100)]
#[verifier::spinoff_prover]
pub fn show_number(s: &str) -> (r: String)
    ensures
        r@ == number_debug(s@),
{
    let cs = crate::text::chars_of(s);
    let n = cs.len();
    let mut p: usize = 0;
    while p < n && cs[p] != '.'
        invariant
            p <= n,
            n == cs@.len(),
            dot_index(cs@, 0) == dot_index(cs@, p as int),
        decreases n - p,
    {
        p = p + 1;
    }
    proof {
        assert(dot_index(cs@, p as int) == p);
    }
    let ghost ip = cs@.subrange(0, p as int);
    let mut a: usize = 0;
    while a < p && cs[a] == '0'
        invariant
            a <= p <= n,
            n == cs@.len(),
            ip == cs@.subrange(0, p as int),
            lead_zeros(ip, 0) == a + lead_zeros(ip, a as int),
        decreases p - a,
    {
        proof {
            assert(ip[a as int] == cs@[a as int]);
        }
        a = a + 1;
    }
    proof {
        if a < p {
            assert(ip[a as int] == cs@[a as int]);
        }
        assert(lead_zeros(ip, a as int) == 0);
    }
    let fs: usize = if p < n {
        p + 1
    } else {
        n
    };
    let ghost fp = cs@.subrange(fs as int, n as int);
    proof {
        if p >= n {
            assert(fp =~= Seq::<char>::empty());
        }
    }
    let mut b: usize = n;
    proof {
        assert(fp.take(n - fs) =~= fp);
    }
    while b > fs && cs[b - 1] == '0'
        invariant
            fs <= b <= n,
            n == cs@.len(),
            fp == cs@.subrange(fs as int, n as int),
            trail_zeros(fp) == (n - b) + trail_zeros(fp.take(b - fs)),
        decreases b,
    {
        proof {
            let t = fp.take(b - fs);
            assert(t.last() == cs@[b - 1]);
            assert(t.drop_last() =~= fp.take(b - 1 - fs));
        }
        b = b - 1;
    }
    proof {
        let t = fp.take(b - fs);
        if b > fs {
            assert(t.last() == cs@[b - 1]);
        }
        assert(trail_zeros(t) == 0);
        assert(whole_digits(s@) =~= cs@.subrange(a as int, p as int));
        assert(fraction_digits(s@) =~= cs@.subrange(fs as int, b as int));
    }
    let ghost w = cs@.subrange(a as int, p as int);
    let ghost f = cs@.subrange(fs as int, b as int);
    let mut dv: Vec<char> = Vec::new();
    let mut k: usize = a;
    while k < p
        invariant
            a <= k <= p <= n,
            n == cs@.len(),
            dv@ == cs@.subrange(a as int, k as int),
        decreases p - k,
    {
        dv.push(cs[k]);
        k = k + 1;
        proof {
            assert(dv@ =~= cs@.subrange(a as int, k as int));
        }
    }
    let mut k2: usize = fs;
    while k2 < b
        invariant
            fs <= k2 <= b <= n,
            n == cs@.len(),
            dv@ == w + cs@.subrange(fs as int, k2 as int),
        decreases b - k2,
    {
        dv.push(cs[k2]);
        k2 = k2 + 1;
        proof {
            assert(dv@ =~= w + cs@.subrange(fs as int, k2 as int));
        }
    }
    let len = dv.len();
    let mut z: usize = 0;
    while z < len && dv[z] == '0'
        invariant
            z <= len,
            len == dv@.len(),
            lead_zeros(dv@, 0) == z + lead_zeros(dv@, z as int),
        decreases len - z,
    {
        z = z + 1;
    }
    let ghost t = dv@.skip(z as int);
    let mut e: usize = len;
    proof {
        assert(lead_zeros(dv@, z as int) == 0);
        assert(t.take(len - z) =~= t);
    }
    while e > z && dv[e - 1] == '0'
        invariant
            z <= e <= len,
            len == dv@.len(),
            t == dv@.skip(z as int),
            trail_zeros(t) == (len - e) + trail_zeros(t.take(e - z)),
        decreases e,
    {
        proof {
            let tt = t.take(e - z);
            assert(tt.last() == dv@[e - 1]);
            assert(tt.drop_last() =~= t.take(e - 1 - z));
        }
        e = e - 1;
    }
    let wl = p - a;
    proof {
        let tt = t.take(e - z);
        if e > z {
            assert(tt.last() == dv@[e - 1]);
        }
        assert(trail_zeros(tt) == 0);
        assert(sig_digits(s@) =~= dv@.subrange(z as int, e as int));
        if wl > 0 {
            assert(dv@[0] == w[0]);
            assert(lead_zeros(dv@, 0) == 0);
            assert(sci_exp(s@) == wl - 1);
        } else {
            assert(w =~= Seq::<char>::empty());
            assert(dv@ =~= f);
            assert(sci_exp(s@) == -(z + 1));
        }
    }
    let sl = e - z;
    if sl == 0 {
        proof {
            reveal_strlit("0.0");
        }
        return owned("0.0");
    }
    if wl >= 310 {
        proof {
            reveal_strlit("inf");
        }
        return owned("inf");
    }
    if wl == 0 && z >= 324 {
        proof {
            reveal_strlit("0.0");
        }
        return owned("0.0");
    }
    if sl > 15 || wl >= 309 || (wl == 0 && z >= 307) {
        return owned(s);
    }
    if (wl >= 1 && wl <= 16) || (wl == 0 && z <= 3) {
        let mut r = if a == p {
            owned("0")
        } else {
            crate::text::string_from_chars(&cs, a, p)
        };
        push_str(&mut r, ".");
        if b == fs {
            push_str(&mut r, "0");
        } else {
            let fstr = crate::text::string_from_chars(&cs, fs, b);
            push_str(&mut r, fstr.as_str());
        }
        proof {
            reveal_strlit("0");
            reveal_strlit(".");
        }
        return r;
    }
    let mut r = String::new();
    push_char(&mut r, dv[z]);
    if sl > 1 {
        push_str(&mut r, ".");
        let rest = crate::text::string_from_chars(&dv, z + 1, e);
        push_str(&mut r, rest.as_str());
    }
    push_str(&mut r, "e");
    let ghost before_exp = r@;
    if wl == 0 {
        push_str(&mut r, "-");
        let dtext = decimal_text(z as u64 + 1);
        push_str(&mut r, dtext.as_str());
    } else {
        let dtext = decimal_text(wl as u64 - 1);
        push_str(&mut r, dtext.as_str());
    }
    proof {
        reveal_strlit(".");
        reveal_strlit("e");
        reveal_strlit("-");
        let d = sig_digits(s@);
        assert(d[0] == dv@[z as int]);
        if sl > 1 {
            assert(d.skip(1) =~= dv@.subrange(z + 1, e as int));
        }
        assert(r@ =~= exp_text(d, sci_exp(s@)));
    }
    r
}

/// At most the rest of `s` from `k` is zeros.
proof fn lemma_lead_zeros_bound(s: Seq<char>, k: int)
    requires
        0 <= k <= s.len(),
    ensures
        0 <= lead_zeros(s, k) <= s.len() - k,
    decreases s.len() - k,
{
    if k < s.len() && s[k] == '0' {
        lemma_lead_zeros_bound(s, k + 1);
    }
}

/// How a token type is written: its variant's name, with its payload in
/// brackets (text quoted, a number literal as `NotNan(..)` around the
/// `Debug` form of its value, see [`number_debug`]).
pub open spec fn token_type_text(t: TokenTypeV) -> Seq<char> {
    match t {
        TokenTypeV::BlockComment => "BlockComment"@,
        TokenTypeV::Colon => "Colon"@,
        TokenTypeV::Comma => "Comma"@,
        TokenTypeV::Comment => "Comment"@,
        TokenTypeV::Divide => "Divide"@,
        TokenTypeV::Equals => "Equals"@,
        TokenTypeV::GreaterThan => "GreaterThan"@,
        TokenTypeV::GreaterThanEquals => "GreaterThanEquals"@,
        TokenTypeV::Include => "Include"@,
        TokenTypeV::LeftBrace => "LeftBrace"@,
        TokenTypeV::LeftBracket => "LeftBracket"@,
        TokenTypeV::LeftParen => "LeftParen"@,
        TokenTypeV::LessThan => "LessThan"@,
        TokenTypeV::LessThanEquals => "LessThanEquals"@,
        TokenTypeV::Newline => "Newline"@,
        TokenTypeV::Minus => "Minus"@,
        TokenTypeV::Multiply => "Multiply"@,
        TokenTypeV::Plus => "Plus"@,
        TokenTypeV::RightBrace => "RightBrace"@,
        TokenTypeV::RightBracket => "RightBracket"@,
        TokenTypeV::RightParen => "RightParen"@,
        TokenTypeV::Whitespace => "Whitespace"@,
        TokenTypeV::Identifier(s) => "Identifier("@ + str_debug(s) + ")"@,
        TokenTypeV::Number(s) => "Number(NotNan("@ + number_debug(s) + "))"@,
        TokenTypeV::String(s) => "String("@ + str_debug(s) + ")"@,
        TokenTypeV::UnterminatedString(s) => "UnterminatedString("@ + str_debug(s) + ")"@,
    }
}

/// Writes a token type as [`token_type_text`] says.
pub fn show_token_type(t: &TokenType) -> (r: String)
    ensures
        r@ == token_type_text(t@),
{
    match t {
        TokenType::BlockComment => owned("BlockComment"),
        TokenType::Colon => owned("Colon"),
        TokenType::Comma => owned("Comma"),
        TokenType::Comment => owned("Comment"),
        TokenType::Divide => owned("Divide"),
        TokenType::Equals => owned("Equals"),
        TokenType::GreaterThan => owned("GreaterThan"),
        TokenType::GreaterThanEquals => owned("GreaterThanEquals"),
        TokenType::Include => owned("Include"),
        TokenType::LeftBrace => owned("LeftBrace"),
        TokenType::LeftBracket => owned("LeftBracket"),
        TokenType::LeftParen => owned("LeftParen"),
        TokenType::LessThan => owned("LessThan"),
        TokenType::LessThanEquals => owned("LessThanEquals"),
        TokenType::Newline => owned("Newline"),
        TokenType::Minus => owned("Minus"),
        TokenType::Multiply => owned("Multiply"),
        TokenType::Plus => owned("Plus"),
        TokenType::RightBrace => owned("RightBrace"),
        TokenType::RightBracket => owned("RightBracket"),
        TokenType::RightParen => owned("RightParen"),
        TokenType::Whitespace => owned("Whitespace"),
        TokenType::Identifier(s) => wrap("Identifier(", quoted(s.as_str()).as_str(), ")"),
        TokenType::Number(s) => wrap("Number(NotNan(", show_number(s.as_str()).as_str(), "))"),
        TokenType::String(s) => wrap("String(", quoted(s.as_str()).as_str(), ")"),
        TokenType::UnterminatedString(s) => wrap("UnterminatedString(", quoted(s.as_str()).as_str(), ")"),
    }
}

/// `open`, then `inner`, then `close`.
pub fn wrap(open: &str, inner: &str, close: &str) -> (r: String)
    ensures
        r@ == open@ + inner@ + close@,
{
    let mut r = owned(open);
    push_str(&mut r, inner);
    push_str(&mut r, close);
    r
}

/// How a location is written.
pub open spec fn source_loc_text(l: SourceLocV) -> Seq<char> {
    "SourceLoc { doc_loc: DocLoc("@ + str_debug(l.doc_loc) + "), pos: "@ + decimal(l.pos as nat)
        + ", line: "@ + decimal(l.line as nat) + ", column: "@ + decimal(l.column as nat)
        + ", length: "@ + decimal(l.length as nat) + " }"@
}

/// Writes a location as [`source_loc_text`] says.
pub fn show_source_loc(l: &SourceLoc) -> (r: String)
    ensures
        r@ == source_loc_text(l@),
{
    let mut r = owned("SourceLoc { doc_loc: DocLoc(");
    push_str(&mut r, quoted(l.doc_loc.as_str()).as_str());
    push_str(&mut r, "), pos: ");
    push_str(&mut r, decimal_text(l.pos as u64).as_str());
    push_str(&mut r, ", line: ");
    push_str(&mut r, decimal_text(l.line as u64).as_str());
    push_str(&mut r, ", column: ");
    push_str(&mut r, decimal_text(l.column as u64).as_str());
    push_str(&mut r, ", length: ");
    push_str(&mut r, decimal_text(l.length as u64).as_str());
    push_str(&mut r, " }");
    r
}

/// How a token is written.
pub open spec fn token_text(t: TokenV) -> Seq<char> {
    "Token { token_type: "@ + token_type_text(t.token_type) + ", source_loc: "@ + source_loc_text(
        t.source_loc,
    ) + " }"@
}

/// Writes a token as [`token_text`] says.
pub fn show_token(t: &Token) -> (r: String)
    ensures
        r@ == token_text(t@),
{
    let mut r = owned("Token { token_type: ");
    push_str(&mut r, show_token_type(&t.token_type).as_str());
    push_str(&mut r, ", source_loc: ");
    push_str(&mut r, show_source_loc(&t.source_loc).as_str());
    push_str(&mut r, " }");
    r
}

/// How a line and column are written.
pub open spec fn mini_loc_text(line: nat, column: nat) -> Seq<char> {
    "MiniLoc { line: "@ + decimal(line) + ", column: "@ + decimal(column) + " }"@
}

/// Writes a line and column as [`mini_loc_text`] says.
pub fn show_mini_loc(m: &MiniLoc) -> (r: String)
    ensures
        r@ == mini_loc_text(m.line as nat, m.column as nat),
{
    let mut r = owned("MiniLoc { line: ");
    push_str(&mut r, decimal_text(m.line as u64).as_str());
    push_str(&mut r, ", column: ");
    push_str(&mut r, decimal_text(m.column as u64).as_str());
    push_str(&mut r, " }");
    r
}

/// The quoted forms of `v`, separated by `, `.
pub open spec fn quoted_list(v: Seq<Seq<char>>) -> Seq<char>
    decreases v.len(),
{
    if v.len() == 0 {
        Seq::empty()
    } else if v.len() == 1 {
        str_debug(v[0])
    } else {
        quoted_list(v.drop_last()) + ", "@ + str_debug(v.last())
    }
}

/// How a list of strings is written: `["a", "b"]`.
pub open spec fn strings_text(v: Seq<Seq<char>>) -> Seq<char> {
    "["@ + quoted_list(v) + "]"@
}

/// The views of the strings in `v`.
pub open spec fn strings_view(v: Seq<String>) -> Seq<Seq<char>> {
    v.map_values(|s: String| s@)
}

/// Writes a list of strings as [`strings_text`] says.
pub fn show_strings(v: &Vec<String>) -> (r: String)
    ensures
        r@ == strings_text(strings_view(v@)),
{
    let ghost sv = strings_view(v@);
    let mut joined = String::new();
    let mut i: usize = 0;
    while i < v.len()
        invariant
            i <= v@.len(),
            sv == strings_view(v@),
            joined@ == quoted_list(sv.take(i as int)),
        decreases v@.len() - i,
    {
        if i > 0 {
            push_str(&mut joined, ", ");
        }
        push_str(&mut joined, quoted(v[i].as_str()).as_str());
        proof {
            let t = sv.take(i + 1);
            assert(t.drop_last() =~= sv.take(i as int));
            assert(t.last() == v@[i as int]@);
        }
        i = i + 1;
    }
    proof {
        assert(sv.take(i as int) =~= sv);
    }
    wrap("[", joined.as_str(), "]")
}

/// How a type is written in full: the variant's name with its payload in
/// brackets; a function as `Function(Function { params: [..], return_type:
/// .. })` with each parameter as `ParamInfo("name", type, has_default)`.
pub open spec fn type_text(t: TypeV) -> Seq<char>
    decreases t,
{
    match t {
        TypeV::AudioEffect => "AudioEffect"@,
        TypeV::Boolean => "Boolean"@,
        TypeV::Function(ps, r) => "Function(Function { params: ["@ + param_infos_text(ps)
            + "], return_type: "@ + type_text(*r) + " })"@,
        TypeV::Generic(name) => "Generic("@ + str_debug(name) + ")"@,
        TypeV::List(inner) => "List("@ + type_text(*inner) + ")"@,
        TypeV::Number => "Number"@,
        TypeV::RandomArg => "RandomArg"@,
        TypeV::RoundArg => "RoundArg"@,
        TypeV::SequenceArg => "SequenceArg"@,
        TypeV::String => "String"@,
        TypeV::Unknown => "Unknown"@,
    }
}

/// The parameters of a function type, each as [`param_info_text`] says,
/// separated by `, `.
pub open spec fn param_infos_text(ps: Seq<ParamV>) -> Seq<char>
    decreases ps,
{
    if ps.len() == 0 {
        Seq::empty()
    } else {
        proof {
            assert(decreases_to!(ps => ps[ps.len() - 1]));
        }
        let one = param_info_text(ps[ps.len() - 1]);
        if ps.len() == 1 {
            one
        } else {
            param_infos_text(ps.drop_last()) + ", "@ + one
        }
    }
}

/// A parameter: `ParamInfo("name", type, true)` or `.., false)`.
pub open spec fn param_info_text(p: ParamV) -> Seq<char>
    decreases p,
{
    "ParamInfo("@ + str_debug(p.name) + ", "@ + type_text(p.typ) + ", "@ + (if p.has_default {
        "true"@
    } else {
        "false"@
    }) + ")"@
}

/// Writes a type as [`type_text`] says.
pub fn show_type(typ: &OrganicType) -> (r: String)
    ensures
        r@ == type_text(typ@),
    decreases typ,
{
    match typ {
        OrganicType::AudioEffect => owned("AudioEffect"),
        OrganicType::Boolean => owned("Boolean"),
        OrganicType::Function(func) => {
            proof {
                assert(decreases_to!(*typ => **func));
            }
            show_function(func)
        },
        OrganicType::Generic(name) => wrap("Generic(", quoted(name.as_str()).as_str(), ")"),
        OrganicType::List(inner) => wrap("List(", show_type(inner).as_str(), ")"),
        OrganicType::Number => owned("Number"),
        OrganicType::RandomArg => owned("RandomArg"),
        OrganicType::RoundArg => owned("RoundArg"),
        OrganicType::SequenceArg => owned("SequenceArg"),
        OrganicType::String => owned("String"),
        OrganicType::Unknown => owned("Unknown"),
    }
}

/// Writes a function type as [`type_text`] says of it.
pub fn show_function(func: &Function) -> (r: String)
    ensures
        r@ == "Function(Function { params: ["@ + param_infos_text(params_view(func.params@))
            + "], return_type: "@ + type_text(func.return_type@) + " })"@,
    decreases func, 0int,
{
    let ghost ps = params_view(func.params@);
    proof {
        lemma_params_view(func.params@);
    }
    let mut joined = String::new();
    let mut i: usize = 0;
    while i < func.params.len()
        invariant
            i <= func.params@.len(),
            ps == params_view(func.params@),
            ps.len() == func.params@.len(),
            forall|k: int| 0 <= k < func.params@.len() ==> #[trigger] ps[k] == param_view(&func.params@[k]),
            joined@ == param_infos_text(ps.take(i as int)),
        decreases func.params@.len() - i,
    {
        let p: &ParamInfo = &func.params[i];
        proof {
            assert(decreases_to!(*func => func.params));
            assert(decreases_to!(func.params => func.params@));
            assert(decreases_to!(func.params@ => func.params@[i as int]));
            assert(decreases_to!(func.params@[i as int] => func.params@[i as int].1));
        }
        let shown = show_type(&p.1);
        if i > 0 {
            push_str(&mut joined, ", ");
        }
        push_str(&mut joined, "ParamInfo(");
        push_str(&mut joined, quoted(p.0.as_str()).as_str());
        push_str(&mut joined, ", ");
        push_str(&mut joined, shown.as_str());
        push_str(&mut joined, ", ");
        if p.2 {
            push_str(&mut joined, "true");
        } else {
            push_str(&mut joined, "false");
        }
        push_str(&mut joined, ")");
        proof {
            let t = ps.take(i + 1);
            assert(t.drop_last() =~= ps.take(i as int));
            assert(t[t.len() - 1] == ps[i as int]);
            assert(ps[i as int] == param_view(p));
            assert(param_info_text(ps[i as int]) == "ParamInfo("@ + str_debug(p.0@) + ", "@ + type_text(p.1@) + ", "@ + (if p.2 {
                "true"@
            } else {
                "false"@
            }) + ")"@);
        }
        i = i + 1;
    }
    proof {
        assert(ps.take(i as int) =~= ps);
    }
    let mut r = owned("Function(Function { params: [");
    push_str(&mut r, joined.as_str());
    push_str(&mut r, "], return_type: ");
    push_str(&mut r, show_type(&func.return_type).as_str());
    push_str(&mut r, " })");
    r
}

} // verus!
