//! A formatter for Organic code: statements and expressions laid out
//! within a width, one item per line where they do not fit.

use vstd::prelude::*;

use crate::lsp::lines::{indent_lines, indent_text, is_multiline, multiline, sub_sat, width, width_of};
use crate::parser::ast::{Arg, Expr, Formal, FuncCall, FuncLiteral, Include, Module, Operator, Statement, VarDecl};
use crate::text::{chars_of, owned, push_char, push_str};

verus! {

/// `n`, or `u32::MAX` where it is more.
pub open spec fn capped(n: int) -> int {
    if n > u32::MAX {
        u32::MAX as int
    } else {
        n
    }
}

/// The sum of three widths, capped at `u32::MAX`.
pub fn capped_sum(a: u32, b: u32, c: u32) -> (r: u32)
    ensures
        r == capped(a + b + c),
{
    let s: u64 = a as u64 + b as u64 + c as u64;
    if s > u32::MAX as u64 {
        u32::MAX
    } else {
        s as u32
    }
}

/// `w - o`, or 0 where `o` is at least `w`.
pub fn sub_sat_exec(w: u32, o: u64) -> (r: u32)
    ensures
        r == sub_sat(w, o as int),
{
    if o >= w as u64 {
        0
    } else {
        (w as u64 - o) as u32
    }
}

/// The keyword that imports a file.
pub open spec fn import_keyword() -> Seq<char> {
    seq!['i', 'n', 'c', 'l', 'u', 'd', 'e']
}

/// A character of a string literal as written: `\` and `"` after a
/// backslash.
pub open spec fn escape_char(c: char) -> Seq<char> {
    if c == '\\' {
        seq!['\\', '\\']
    } else if c == '"' {
        seq!['\\', '"']
    } else {
        seq![c]
    }
}

/// The characters of `s`, each escaped as [`escape_char`] says.
pub open spec fn escape_spec(s: Seq<char>) -> Seq<char>
    decreases s.len(),
{
    if s.len() == 0 {
        Seq::empty()
    } else {
        escape_spec(s.drop_last()) + escape_char(s.last())
    }
}

/// A string literal: `s` escaped, in double quotes.
pub open spec fn string_text(s: Seq<char>) -> Seq<char> {
    seq!['"'] + escape_spec(s) + seq!['"']
}

/// An import of the file at `path`.
pub open spec fn include_text(path: Seq<char>) -> Seq<char> {
    import_keyword() + "("@ + string_text(path) + ")"@
}

/// An operator's symbol.
pub open spec fn operator_text(op: Operator) -> Seq<char> {
    match op {
        Operator::Plus => "+"@,
        Operator::Minus => "-"@,
        Operator::Times => "*"@,
        Operator::Divide => "/"@,
        Operator::Equals => "=="@,
        Operator::LessThan => "<"@,
        Operator::LessOrEquals => "<="@,
        Operator::GreaterThan => ">"@,
        Operator::GreaterOrEquals => ">="@,
    }
}

/// Statements one after another, with an empty line between two of them
/// where either takes more than one line.
pub open spec fn stmts_text(ss: Seq<Statement>, w: u32) -> Seq<char>
    decreases ss, 0int,
{
    if ss.len() == 0 {
        Seq::empty()
    } else if ss.len() == 1 {
        stmt_text(ss[0], w)
    } else {
        let a = stmt_text(ss[ss.len() - 2], w);
        let b = stmt_text(ss[ss.len() - 1], w);
        stmts_text(ss.drop_last(), w) + (if multiline(a) || multiline(b) {
            "\n\n"@
        } else {
            "\n"@
        }) + b
    }
}

/// A statement.
pub open spec fn stmt_text(s: Statement, w: u32) -> Seq<char>
    decreases s, 0int,
{
    match s {
        Statement::FunctionCall(call) => call_text(*call, w),
        Statement::VariableDecl(decl) => var_decl_text(decl, w),
    }
}

/// A call: the callee's name, then its arguments in brackets.
pub open spec fn call_text(c: FuncCall, w: u32) -> Seq<char>
    decreases c, 0int,
{
    proof {
        assert(decreases_to!(c => c.args));
    }
    args_layout(c.func.name@ + "("@, ","@, ")"@, c.args@, w)
}

/// A named argument: `name: value`, the value given what is left of the
/// width.
pub open spec fn arg_text(a: Arg, w: u32) -> Seq<char>
    decreases a, 0int,
{
    let prefix = a.name.name@ + ": "@;
    prefix + expr_text(a.value, sub_sat(w, width(prefix) as int))
}

/// A declaration: `name = value`, or the function itself where the value
/// is a function.
pub open spec fn var_decl_text(d: VarDecl, w: u32) -> Seq<char>
    decreases d, 0int,
{
    if d.init is Function {
        expr_text(d.init, w)
    } else {
        let prefix = d.name.name@ + " = "@;
        prefix + expr_text(d.init, sub_sat(w, width(prefix) as int))
    }
}

/// An expression.
pub open spec fn expr_text(e: Expr, w: u32) -> Seq<char>
    decreases e, 0int,
{
    match e {
        Expr::Call { call, .. } => call_text(call, w),
        Expr::Function { value, .. } => func_def_text(value, w),
        Expr::Grouping { value, .. } => "("@ + expr_text(*value, sub_sat(w, 2)) + ")"@,
        Expr::List { values, .. } => exprs_layout("["@, ","@, "]"@, values@, w),
        Expr::LValue { name, .. } => name.name@,
        Expr::Negated { value, .. } => "-"@ + expr_text(*value, sub_sat(w, 1)),
        Expr::Number { value, .. } => value@,
        Expr::Op { left, operator, right, .. } => expr_text(*left, w) + " "@ + operator_text(operator) + " "@
            + expr_text(*right, w),
        Expr::String { value, .. } => string_text(value@),
    }
}

/// A function definition: its name and parameters, `= {`, its body indented
/// by four spaces, and `}` on a line of its own.
pub open spec fn func_def_text(f: FuncLiteral, w: u32) -> Seq<char>
    decreases f, 0int,
{
    proof {
        assert(decreases_to!(f => f.body));
        assert(decreases_to!(f => f.formals));
    }
    formals_layout(f.name.name@ + "("@, ","@, ") = {"@, f.formals@, w) + "\n"@ + indent_lines(
        stmts_text(f.body@, w),
    ) + "\n}"@
}

/// A parameter: `name: default`.
pub open spec fn formal_text(f: Formal, w: u32) -> Seq<char>
    decreases f, 0int,
{
    f.name.name@ + ": "@ + expr_text(f.default, w)
}

/// The first `k` items of `xs` laid out on one line after `prefix`, each
/// followed by `sep` and a space unless it is the last; an item is given
/// the width that remains after what is written so far, `sep`, `suffix` and
/// one more character. Once the line is longer than the width less
/// `suffix`, no more items are added (the flag says so).
pub open spec fn args_one(prefix: Seq<char>, sep: Seq<char>, suffix: Seq<char>, xs: Seq<Arg>, w: u32, k: int) -> (Seq<char>, bool)
    decreases xs, k,
{
    if k <= 0 || k > xs.len() {
        (prefix, false)
    } else {
        let (o, stop) = args_one(prefix, sep, suffix, xs, w, k - 1);
        if stop {
            (o, true)
        } else {
            let overhead = capped(width(o) + width(sep) + width(suffix)) + 1;
            let rx = arg_text(xs[k - 1], sub_sat(w, overhead));
            let o2 = o + rx + (if k < xs.len() { sep + " "@ } else { Seq::empty() });
            (o2, width(o2) > sub_sat(w, width(suffix) as int))
        }
    }
}

/// The first `k` items of `xs` one per line after `prefix`, each indented
/// by four spaces and followed by `sep` unless it is the last.
pub open spec fn args_multi(prefix: Seq<char>, sep: Seq<char>, xs: Seq<Arg>, w: u32, k: int) -> Seq<char>
    decreases xs, k,
{
    if k <= 0 || k > xs.len() {
        prefix
    } else {
        args_multi(prefix, sep, xs, w, k - 1) + "\n"@ + indent_lines(arg_text(xs[k - 1], w)) + (if k < xs.len() {
            sep
        } else {
            Seq::empty()
        })
    }
}

/// `xs` between `prefix` and `suffix`: on one line where that fits in `w`
/// bytes, otherwise one item per line and `suffix` on a line of its own.
pub open spec fn args_layout(prefix: Seq<char>, sep: Seq<char>, suffix: Seq<char>, xs: Seq<Arg>, w: u32) -> Seq<char>
    decreases xs, xs.len() + 1,
{
    let one = args_one(prefix, sep, suffix, xs, w, xs.len() as int).0 + suffix;
    if width(one) <= w {
        one
    } else {
        args_multi(prefix, sep, xs, w, xs.len() as int) + "\n"@ + suffix
    }
}

/// Lays out `xs` as [`args_layout`] says.
pub fn lay_out_args(prefix: &str, sep: &str, suffix: &str, xs: &Vec<Arg>, w: u32) -> (r: String)
    ensures
        r@ == args_layout(prefix@, sep@, suffix@, xs@, w),
    decreases xs, 1int,
{
    let n = xs.len();
    let mut one = owned(prefix);
    let mut stopped = false;
    let mut i: usize = 0;
    while i < n
        invariant
            n == xs@.len(),
            i <= n,
            (one@, stopped) == args_one(prefix@, sep@, suffix@, xs@, w, i as int),
        decreases n - i,
    {
        if !stopped {
            let ghost o = one@;
            let overhead: u64 = capped_sum(width_of(one.as_str()), width_of(sep), width_of(suffix)) as u64 + 1;
            let avail = sub_sat_exec(w, overhead);
            proof {
                assert(decreases_to!(*xs => xs@));
                assert(decreases_to!(xs@ => xs@[i as int]));
            }
            let rx = render_arg(&xs[i], avail);
            push_str(&mut one, rx.as_str());
            if i + 1 < n {
                push_str(&mut one, sep);
                push_str(&mut one, " ");
            }
            proof {
                assert(one@ =~= o + rx@ + (if i + 1 < xs@.len() { sep@ + " "@ } else { Seq::<char>::empty() }));
            }
            stopped = width_of(one.as_str()) > sub_sat_exec(w, width_of(suffix) as u64);
        }
        i = i + 1;
    }
    push_str(&mut one, suffix);
    if width_of(one.as_str()) <= w {
        return one;
    }
    let mut multi = owned(prefix);
    let mut j: usize = 0;
    while j < n
        invariant
            n == xs@.len(),
            j <= n,
            multi@ == args_multi(prefix@, sep@, xs@, w, j as int),
        decreases n - j,
    {
        proof {
            assert(decreases_to!(*xs => xs@));
            assert(decreases_to!(xs@ => xs@[j as int]));
        }
        let rendered = render_arg(&xs[j], w);
        push_str(&mut multi, "\n");
        push_str(&mut multi, indent_text(rendered.as_str()).as_str());
        if j + 1 < n {
            push_str(&mut multi, sep);
        }
        proof {
            assert(multi@ =~= args_multi(prefix@, sep@, xs@, w, j + 1));
        }
        j = j + 1;
    }
    push_str(&mut multi, "\n");
    push_str(&mut multi, suffix);
    multi
}

/// The first `k` items of `xs` laid out on one line after `prefix`, each
/// followed by `sep` and a space unless it is the last; an item is given
/// the width that remains after what is written so far, `sep`, `suffix` and
/// one more character. Once the line is longer than the width less
/// `suffix`, no more items are added (the flag says so).
pub open spec fn exprs_one(prefix: Seq<char>, sep: Seq<char>, suffix: Seq<char>, xs: Seq<Expr>, w: u32, k: int) -> (Seq<char>, bool)
    decreases xs, k,
{
    if k <= 0 || k > xs.len() {
        (prefix, false)
    } else {
        let (o, stop) = exprs_one(prefix, sep, suffix, xs, w, k - 1);
        if stop {
            (o, true)
        } else {
            let overhead = capped(width(o) + width(sep) + width(suffix)) + 1;
            let rx = expr_text(xs[k - 1], sub_sat(w, overhead));
            let o2 = o + rx + (if k < xs.len() { sep + " "@ } else { Seq::empty() });
            (o2, width(o2) > sub_sat(w, width(suffix) as int))
        }
    }
}

/// The first `k` items of `xs` one per line after `prefix`, each indented
/// by four spaces and followed by `sep` unless it is the last.
pub open spec fn exprs_multi(prefix: Seq<char>, sep: Seq<char>, xs: Seq<Expr>, w: u32, k: int) -> Seq<char>
    decreases xs, k,
{
    if k <= 0 || k > xs.len() {
        prefix
    } else {
        exprs_multi(prefix, sep, xs, w, k - 1) + "\n"@ + indent_lines(expr_text(xs[k - 1], w)) + (if k < xs.len() {
            sep
        } else {
            Seq::empty()
        })
    }
}

/// `xs` between `prefix` and `suffix`: on one line where that fits in `w`
/// bytes, otherwise one item per line and `suffix` on a line of its own.
pub open spec fn exprs_layout(prefix: Seq<char>, sep: Seq<char>, suffix: Seq<char>, xs: Seq<Expr>, w: u32) -> Seq<char>
    decreases xs, xs.len() + 1,
{
    let one = exprs_one(prefix, sep, suffix, xs, w, xs.len() as int).0 + suffix;
    if width(one) <= w {
        one
    } else {
        exprs_multi(prefix, sep, xs, w, xs.len() as int) + "\n"@ + suffix
    }
}

/// Lays out `xs` as [`exprs_layout`] says.
pub fn lay_out_exprs(prefix: &str, sep: &str, suffix: &str, xs: &Vec<Expr>, w: u32) -> (r: String)
    ensures
        r@ == exprs_layout(prefix@, sep@, suffix@, xs@, w),
    decreases xs, 1int,
{
    let n = xs.len();
    let mut one = owned(prefix);
    let mut stopped = false;
    let mut i: usize = 0;
    while i < n
        invariant
            n == xs@.len(),
            i <= n,
            (one@, stopped) == exprs_one(prefix@, sep@, suffix@, xs@, w, i as int),
        decreases n - i,
    {
        if !stopped {
            let ghost o = one@;
            let overhead: u64 = capped_sum(width_of(one.as_str()), width_of(sep), width_of(suffix)) as u64 + 1;
            let avail = sub_sat_exec(w, overhead);
            proof {
                assert(decreases_to!(*xs => xs@));
                assert(decreases_to!(xs@ => xs@[i as int]));
            }
            let rx = render_expr(&xs[i], avail);
            push_str(&mut one, rx.as_str());
            if i + 1 < n {
                push_str(&mut one, sep);
                push_str(&mut one, " ");
            }
            proof {
                assert(one@ =~= o + rx@ + (if i + 1 < xs@.len() { sep@ + " "@ } else { Seq::<char>::empty() }));
            }
            stopped = width_of(one.as_str()) > sub_sat_exec(w, width_of(suffix) as u64);
        }
        i = i + 1;
    }
    push_str(&mut one, suffix);
    if width_of(one.as_str()) <= w {
        return one;
    }
    let mut multi = owned(prefix);
    let mut j: usize = 0;
    while j < n
        invariant
            n == xs@.len(),
            j <= n,
            multi@ == exprs_multi(prefix@, sep@, xs@, w, j as int),
        decreases n - j,
    {
        proof {
            assert(decreases_to!(*xs => xs@));
            assert(decreases_to!(xs@ => xs@[j as int]));
        }
        let rendered = render_expr(&xs[j], w);
        push_str(&mut multi, "\n");
        push_str(&mut multi, indent_text(rendered.as_str()).as_str());
        if j + 1 < n {
            push_str(&mut multi, sep);
        }
        proof {
            assert(multi@ =~= exprs_multi(prefix@, sep@, xs@, w, j + 1));
        }
        j = j + 1;
    }
    push_str(&mut multi, "\n");
    push_str(&mut multi, suffix);
    multi
}

/// The first `k` items of `xs` laid out on one line after `prefix`, each
/// followed by `sep` and a space unless it is the last; an item is given
/// the width that remains after what is written so far, `sep`, `suffix` and
/// one more character. Once the line is longer than the width less
/// `suffix`, no more items are added (the flag says so).
pub open spec fn formals_one(prefix: Seq<char>, sep: Seq<char>, suffix: Seq<char>, xs: Seq<Formal>, w: u32, k: int) -> (Seq<char>, bool)
    decreases xs, k,
{
    if k <= 0 || k > xs.len() {
        (prefix, false)
    } else {
        let (o, stop) = formals_one(prefix, sep, suffix, xs, w, k - 1);
        if stop {
            (o, true)
        } else {
            let overhead = capped(width(o) + width(sep) + width(suffix)) + 1;
            let rx = formal_text(xs[k - 1], sub_sat(w, overhead));
            let o2 = o + rx + (if k < xs.len() { sep + " "@ } else { Seq::empty() });
            (o2, width(o2) > sub_sat(w, width(suffix) as int))
        }
    }
}

/// The first `k` items of `xs` one per line after `prefix`, each indented
/// by four spaces and followed by `sep` unless it is the last.
pub open spec fn formals_multi(prefix: Seq<char>, sep: Seq<char>, xs: Seq<Formal>, w: u32, k: int) -> Seq<char>
    decreases xs, k,
{
    if k <= 0 || k > xs.len() {
        prefix
    } else {
        formals_multi(prefix, sep, xs, w, k - 1) + "\n"@ + indent_lines(formal_text(xs[k - 1], w)) + (if k < xs.len() {
            sep
        } else {
            Seq::empty()
        })
    }
}

/// `xs` between `prefix` and `suffix`: on one line where that fits in `w`
/// bytes, otherwise one item per line and `suffix` on a line of its own.
pub open spec fn formals_layout(prefix: Seq<char>, sep: Seq<char>, suffix: Seq<char>, xs: Seq<Formal>, w: u32) -> Seq<char>
    decreases xs, xs.len() + 1,
{
    let one = formals_one(prefix, sep, suffix, xs, w, xs.len() as int).0 + suffix;
    if width(one) <= w {
        one
    } else {
        formals_multi(prefix, sep, xs, w, xs.len() as int) + "\n"@ + suffix
    }
}

/// Lays out `xs` as [`formals_layout`] says.
pub fn lay_out_formals(prefix: &str, sep: &str, suffix: &str, xs: &Vec<Formal>, w: u32) -> (r: String)
    ensures
        r@ == formals_layout(prefix@, sep@, suffix@, xs@, w),
    decreases xs, 1int,
{
    let n = xs.len();
    let mut one = owned(prefix);
    let mut stopped = false;
    let mut i: usize = 0;
    while i < n
        invariant
            n == xs@.len(),
            i <= n,
            (one@, stopped) == formals_one(prefix@, sep@, suffix@, xs@, w, i as int),
        decreases n - i,
    {
        if !stopped {
            let ghost o = one@;
            let overhead: u64 = capped_sum(width_of(one.as_str()), width_of(sep), width_of(suffix)) as u64 + 1;
            let avail = sub_sat_exec(w, overhead);
            proof {
                assert(decreases_to!(*xs => xs@));
                assert(decreases_to!(xs@ => xs@[i as int]));
            }
            let rx = render_formal(&xs[i], avail);
            push_str(&mut one, rx.as_str());
            if i + 1 < n {
                push_str(&mut one, sep);
                push_str(&mut one, " ");
            }
            proof {
                assert(one@ =~= o + rx@ + (if i + 1 < xs@.len() { sep@ + " "@ } else { Seq::<char>::empty() }));
            }
            stopped = width_of(one.as_str()) > sub_sat_exec(w, width_of(suffix) as u64);
        }
        i = i + 1;
    }
    push_str(&mut one, suffix);
    if width_of(one.as_str()) <= w {
        return one;
    }
    let mut multi = owned(prefix);
    let mut j: usize = 0;
    while j < n
        invariant
            n == xs@.len(),
            j <= n,
            multi@ == formals_multi(prefix@, sep@, xs@, w, j as int),
        decreases n - j,
    {
        proof {
            assert(decreases_to!(*xs => xs@));
            assert(decreases_to!(xs@ => xs@[j as int]));
        }
        let rendered = render_formal(&xs[j], w);
        push_str(&mut multi, "\n");
        push_str(&mut multi, indent_text(rendered.as_str()).as_str());
        if j + 1 < n {
            push_str(&mut multi, sep);
        }
        proof {
            assert(multi@ =~= formals_multi(prefix@, sep@, xs@, w, j + 1));
        }
        j = j + 1;
    }
    push_str(&mut multi, "\n");
    push_str(&mut multi, suffix);
    multi
}

/// The imports, each on a line of its own.
pub open spec fn includes_text(is: Seq<Include>) -> Seq<char>
    decreases is.len(),
{
    if is.len() == 0 {
        Seq::empty()
    } else {
        includes_text(is.drop_last()) + include_text(is.last().path@) + "\n"@
    }
}

/// A module formatted for the width `w`: its imports, an empty line after
/// them where there are any, then its statements.
pub open spec fn miniformat_spec(m: &Module, w: u32) -> Seq<char> {
    includes_text(m.includes@) + (if m.includes@.len() > 0 {
        "\n"@
    } else {
        Seq::empty()
    }) + stmts_text(m.statements@, w)
}

/// Formats a module as [`miniformat_spec`] says.
pub fn miniformat(ast: &Module, avail_width: u32) -> (r: String)
    ensures
        r@ == miniformat_spec(ast, avail_width),
{
    let mut output = String::new();
    let mut i: usize = 0;
    while i < ast.includes.len()
        invariant
            i <= ast.includes@.len(),
            output@ == includes_text(ast.includes@.take(i as int)),
        decreases ast.includes@.len() - i,
    {
        let rendered = render_include(&ast.includes[i]);
        push_str(&mut output, rendered.as_str());
        push_str(&mut output, "\n");
        proof {
            let t = ast.includes@.take(i + 1);
            assert(t.drop_last() =~= ast.includes@.take(i as int));
        }
        i = i + 1;
    }
    proof {
        assert(ast.includes@.take(i as int) =~= ast.includes@);
    }
    if ast.includes.len() > 0 {
        push_str(&mut output, "\n");
    }
    let body = render_statements(&ast.statements, avail_width);
    push_str(&mut output, body.as_str());
    output
}

/// An import, as [`include_text`] says.
pub fn render_include(imported: &Include) -> (r: String)
    ensures
        r@ == include_text(imported.path@),
{
    let mut r = String::new();
    push_char(&mut r, 'i');
    push_char(&mut r, 'n');
    push_char(&mut r, 'c');
    push_char(&mut r, 'l');
    push_char(&mut r, 'u');
    push_char(&mut r, 'd');
    push_char(&mut r, 'e');
    push_str(&mut r, "(");
    push_str(&mut r, render_string(imported.path.as_str()).as_str());
    push_str(&mut r, ")");
    proof {
        assert(r@ =~= include_text(imported.path@));
    }
    r
}

/// A string literal, as [`string_text`] says.
pub fn render_string(s: &str) -> (r: String)
    ensures
        r@ == string_text(s@),
{
    let cs = chars_of(s);
    let mut r = String::new();
    push_char(&mut r, '"');
    let mut i: usize = 0;
    while i < cs.len()
        invariant
            cs@ == s@,
            i <= cs@.len(),
            r@ == seq!['"'] + escape_spec(cs@.take(i as int)),
        decreases cs@.len() - i,
    {
        let c = cs[i];
        if c == '\\' {
            push_char(&mut r, '\\');
            push_char(&mut r, '\\');
        } else if c == '"' {
            push_char(&mut r, '\\');
            push_char(&mut r, '"');
        } else {
            push_char(&mut r, c);
        }
        proof {
            let t = cs@.take(i + 1);
            assert(t.drop_last() =~= cs@.take(i as int));
            assert(r@ =~= seq!['"'] + escape_spec(t));
        }
        i = i + 1;
    }
    proof {
        assert(cs@.take(i as int) =~= cs@);
    }
    push_char(&mut r, '"');
    proof {
        assert(r@ =~= string_text(s@));
    }
    r
}

/// An operator's symbol.
pub fn render_operator(operator: &Operator) -> (r: String)
    ensures
        r@ == operator_text(*operator),
{
    match operator {
        Operator::Plus => owned("+"),
        Operator::Minus => owned("-"),
        Operator::Times => owned("*"),
        Operator::Divide => owned("/"),
        Operator::Equals => owned("=="),
        Operator::LessThan => owned("<"),
        Operator::LessOrEquals => owned("<="),
        Operator::GreaterThan => owned(">"),
        Operator::GreaterOrEquals => owned(">="),
    }
}

/// Statements, as [`stmts_text`] says.
pub fn render_statements(statements: &Vec<Statement>, avail_width: u32) -> (r: String)
    ensures
        r@ == stmts_text(statements@, avail_width),
    decreases statements, 1int,
{
    let n = statements.len();
    let mut buffer = String::new();
    let mut last_multi = false;
    let mut i: usize = 0;
    while i < n
        invariant
            n == statements@.len(),
            i <= n,
            buffer@ == stmts_text(statements@.take(i as int), avail_width),
            i > 0 ==> last_multi == multiline(stmt_text(statements@[i - 1], avail_width)),
        decreases n - i,
    {
        proof {
            assert(decreases_to!(*statements => statements@));
            assert(decreases_to!(statements@ => statements@[i as int]));
        }
        let rendered = render_statement(&statements[i], avail_width);
        let multi = is_multiline(rendered.as_str());
        if i > 0 {
            if last_multi || multi {
                push_str(&mut buffer, "\n\n");
            } else {
                push_str(&mut buffer, "\n");
            }
        }
        push_str(&mut buffer, rendered.as_str());
        proof {
            let t = statements@.take(i + 1);
            assert(t.drop_last() =~= statements@.take(i as int));
            if i > 0 {
                assert(t[t.len() - 2] == statements@[i - 1]);
            }
            assert(buffer@ =~= stmts_text(t, avail_width));
        }
        last_multi = multi;
        i = i + 1;
    }
    proof {
        assert(statements@.take(i as int) =~= statements@);
    }
    buffer
}

/// A statement, as [`stmt_text`] says.
pub fn render_statement(statement: &Statement, avail_width: u32) -> (r: String)
    ensures
        r@ == stmt_text(*statement, avail_width),
    decreases statement, 0int,
{
    match statement {
        Statement::FunctionCall(call) => render_func_call(call, avail_width),
        Statement::VariableDecl(decl) => render_var_decl(decl, avail_width),
    }
}

/// A call, as [`call_text`] says.
pub fn render_func_call(call: &FuncCall, avail_width: u32) -> (r: String)
    ensures
        r@ == call_text(*call, avail_width),
    decreases call, 0int,
{
    let mut prefix = call.func.name.clone();
    push_str(&mut prefix, "(");
    lay_out_args(prefix.as_str(), ",", ")", &call.args, avail_width)
}

/// A named argument, as [`arg_text`] says.
pub fn render_arg(arg: &Arg, avail_width: u32) -> (r: String)
    ensures
        r@ == arg_text(*arg, avail_width),
    decreases arg, 0int,
{
    let mut prefix = arg.name.name.clone();
    push_str(&mut prefix, ": ");
    let avail = sub_sat_exec(avail_width, width_of(prefix.as_str()) as u64);
    let value = render_expr(&arg.value, avail);
    push_str(&mut prefix, value.as_str());
    prefix
}

/// A declaration, as [`var_decl_text`] says.
pub fn render_var_decl(decl: &VarDecl, avail_width: u32) -> (r: String)
    ensures
        r@ == var_decl_text(*decl, avail_width),
    decreases decl, 0int,
{
    if let Expr::Function { .. } = &decl.init {
        render_expr(&decl.init, avail_width)
    } else {
        let mut prefix = decl.name.name.clone();
        push_str(&mut prefix, " = ");
        let avail = sub_sat_exec(avail_width, width_of(prefix.as_str()) as u64);
        let value = render_expr(&decl.init, avail);
        push_str(&mut prefix, value.as_str());
        prefix
    }
}

/// An expression, as [`expr_text`] says.
pub fn render_expr(expr: &Expr, avail_width: u32) -> (r: String)
    ensures
        r@ == expr_text(*expr, avail_width),
    decreases expr, 0int,
{
    match expr {
        Expr::Call { call, .. } => render_func_call(call, avail_width),
        Expr::Function { value, .. } => render_func_def(value, avail_width),
        Expr::Grouping { value, .. } => {
            let mut r = owned("(");
            push_str(&mut r, render_expr(value, sub_sat_exec(avail_width, 2)).as_str());
            push_str(&mut r, ")");
            r
        },
        Expr::List { values, .. } => lay_out_exprs("[", ",", "]", values, avail_width),
        Expr::LValue { name, .. } => name.name.clone(),
        Expr::Negated { value, .. } => {
            let mut r = owned("-");
            push_str(&mut r, render_expr(value, sub_sat_exec(avail_width, 1)).as_str());
            r
        },
        Expr::Number { value, .. } => value.clone(),
        Expr::Op { left, operator, right, .. } => {
            let mut r = render_expr(left, avail_width);
            push_str(&mut r, " ");
            push_str(&mut r, render_operator(operator).as_str());
            push_str(&mut r, " ");
            push_str(&mut r, render_expr(right, avail_width).as_str());
            r
        },
        Expr::String { value, .. } => render_string(value.as_str()),
    }
}

/// A function definition, as [`func_def_text`] says.
pub fn render_func_def(func: &FuncLiteral, avail_width: u32) -> (r: String)
    ensures
        r@ == func_def_text(*func, avail_width),
    decreases func, 0int,
{
    let body = render_statements(&func.body, avail_width);
    let indented = indent_text(body.as_str());
    let mut prefix = func.name.name.clone();
    push_str(&mut prefix, "(");
    let mut r = lay_out_formals(prefix.as_str(), ",", ") = {", &func.formals, avail_width);
    push_str(&mut r, "\n");
    push_str(&mut r, indented.as_str());
    push_str(&mut r, "\n}");
    r
}

/// A parameter, as [`formal_text`] says.
pub fn render_formal(formal: &Formal, avail_width: u32) -> (r: String)
    ensures
        r@ == formal_text(*formal, avail_width),
    decreases formal, 0int,
{
    let mut r = formal.name.name.clone();
    push_str(&mut r, ": ");
    push_str(&mut r, render_expr(&formal.default, avail_width).as_str());
    r
}

} // verus!
