//! The law of laying out a list of items: on one line where that fits,
//! one item per line otherwise, for items whose text does not depend on
//! the width they are given.

use vstd::prelude::*;

use crate::lexer::bytes::{lemma_width_sum_append, lemma_width_sum_nonneg, width_sum};
use crate::lsp::lines::{sub_sat, width};
use crate::lsp::miniformat::{
    arg_text, args_layout, args_multi, args_one, expr_text, exprs_layout, exprs_multi, exprs_one, formal_text,
    formals_layout, formals_multi, formals_one,
};
use crate::parser::ast::{Arg, Expr, Formal};

verus! {

/// A line that stopped early (`om`, no wider than the whole line `full`
/// without its suffix, and wider than the width less the suffix) is too
/// wide with its suffix, and so is the whole line.
proof fn lemma_stopped_too_wide(om: Seq<char>, full: Seq<char>, suffix: Seq<char>, w: u32)
    requires
        width_sum(om) <= width_sum(full),
        width_sum(full + suffix) <= u32::MAX,
        width(om) > sub_sat(w, width(suffix) as int),
    ensures
        width(om + suffix) > w,
        width(full + suffix) > w,
{
    lemma_width_sum_append(om, suffix);
    lemma_width_sum_append(full, suffix);
    lemma_width_sum_nonneg(om);
    lemma_width_sum_nonneg(suffix);
}

/// Whether the text of each item of `xs` is the same at every width.
pub open spec fn exprs_width_free(xs: Seq<Expr>) -> bool {
    forall|i: int, a: u32, b: u32| 0 <= i < xs.len() ==> #[trigger] expr_text(xs[i], a) == #[trigger] expr_text(xs[i], b)
}

/// `prefix` and the first `k` items of `xs`, each as [`expr_text`] writes it
/// (here at width 0), followed by `sep` and a space unless it is the last
/// of `xs`.
pub open spec fn exprs_line(prefix: Seq<char>, sep: Seq<char>, xs: Seq<Expr>, k: int) -> Seq<char>
    decreases k,
{
    if k <= 0 || k > xs.len() {
        prefix
    } else {
        exprs_line(prefix, sep, xs, k - 1) + expr_text(xs[k - 1], 0) + (if k < xs.len() {
            sep + " "@
        } else {
            Seq::empty()
        })
    }
}

/// The line only grows as items are added.
proof fn lemma_exprs_line_grows(prefix: Seq<char>, sep: Seq<char>, xs: Seq<Expr>, m: int, n: int)
    requires
        0 <= m <= n <= xs.len(),
    ensures
        width_sum(exprs_line(prefix, sep, xs, m)) <= width_sum(exprs_line(prefix, sep, xs, n)),
    decreases n - m,
{
    if m < n {
        lemma_exprs_line_grows(prefix, sep, xs, m, n - 1);
        let prev = exprs_line(prefix, sep, xs, n - 1);
        let more = expr_text(xs[n - 1], 0) + (if n < xs.len() {
            sep + " "@
        } else {
            Seq::<char>::empty()
        });
        assert(exprs_line(prefix, sep, xs, n) == prev + more);
        lemma_width_sum_append(prev, more);
        lemma_width_sum_nonneg(more);
    }
}

/// What the one-line layout of the first `k` items is: the line of the
/// first `m` of them, all `k` where it did not stop, else the first line
/// that came out too wide.
proof fn lemma_exprs_one(prefix: Seq<char>, sep: Seq<char>, suffix: Seq<char>, xs: Seq<Expr>, w: u32, k: int) -> (m: int)
    requires
        exprs_width_free(xs),
        0 <= k <= xs.len(),
    ensures
        0 <= m <= k,
        exprs_one(prefix, sep, suffix, xs, w, k).0 == exprs_line(prefix, sep, xs, m),
        exprs_one(prefix, sep, suffix, xs, w, k).1 ==> width(exprs_line(prefix, sep, xs, m)) > sub_sat(
            w,
            width(suffix) as int,
        ),
        !exprs_one(prefix, sep, suffix, xs, w, k).1 ==> m == k,
    decreases k,
{
    if k == 0 {
        0
    } else {
        let m0 = lemma_exprs_one(prefix, sep, suffix, xs, w, k - 1);
        if exprs_one(prefix, sep, suffix, xs, w, k - 1).1 {
            m0
        } else {
            let o = exprs_one(prefix, sep, suffix, xs, w, k - 1).0;
            let overhead = crate::lsp::miniformat::capped(width(o) + width(sep) + width(suffix)) + 1;
            assert(expr_text(xs[k - 1], sub_sat(w, overhead)) == expr_text(xs[k - 1], 0));
            k
        }
    }
}

/// Items whose text does not depend on the width are laid out on one line
/// (`prefix`, the items separated by `sep` and a space, `suffix`) where
/// that line fits in the width `w`, and one per line otherwise.
pub proof fn lemma_exprs_fit_or_break(prefix: Seq<char>, sep: Seq<char>, suffix: Seq<char>, xs: Seq<Expr>, w: u32)
    requires
        exprs_width_free(xs),
        width_sum(exprs_line(prefix, sep, xs, xs.len() as int) + suffix) <= u32::MAX,
    ensures
        exprs_layout(prefix, sep, suffix, xs, w) == (if width(exprs_line(prefix, sep, xs, xs.len() as int) + suffix) <= w {
            exprs_line(prefix, sep, xs, xs.len() as int) + suffix
        } else {
            exprs_multi(prefix, sep, xs, w, xs.len() as int) + "\n"@ + suffix
        }),
{
    let n = xs.len() as int;
    let m = lemma_exprs_one(prefix, sep, suffix, xs, w, n);
    if exprs_one(prefix, sep, suffix, xs, w, n).1 {
        lemma_exprs_line_grows(prefix, sep, xs, m, n);
        lemma_stopped_too_wide(exprs_line(prefix, sep, xs, m), exprs_line(prefix, sep, xs, n), suffix, w);
    }
}

/// Whether the text of each item of `xs` is the same at every width.
pub open spec fn args_width_free(xs: Seq<Arg>) -> bool {
    forall|i: int, a: u32, b: u32| 0 <= i < xs.len() ==> #[trigger] arg_text(xs[i], a) == #[trigger] arg_text(xs[i], b)
}

/// `prefix` and the first `k` items of `xs`, each as [`arg_text`] writes it
/// (here at width 0), followed by `sep` and a space unless it is the last
/// of `xs`.
pub open spec fn args_line(prefix: Seq<char>, sep: Seq<char>, xs: Seq<Arg>, k: int) -> Seq<char>
    decreases k,
{
    if k <= 0 || k > xs.len() {
        prefix
    } else {
        args_line(prefix, sep, xs, k - 1) + arg_text(xs[k - 1], 0) + (if k < xs.len() {
            sep + " "@
        } else {
            Seq::empty()
        })
    }
}

/// The line only grows as items are added.
proof fn lemma_args_line_grows(prefix: Seq<char>, sep: Seq<char>, xs: Seq<Arg>, m: int, n: int)
    requires
        0 <= m <= n <= xs.len(),
    ensures
        width_sum(args_line(prefix, sep, xs, m)) <= width_sum(args_line(prefix, sep, xs, n)),
    decreases n - m,
{
    if m < n {
        lemma_args_line_grows(prefix, sep, xs, m, n - 1);
        let prev = args_line(prefix, sep, xs, n - 1);
        let more = arg_text(xs[n - 1], 0) + (if n < xs.len() {
            sep + " "@
        } else {
            Seq::<char>::empty()
        });
        assert(args_line(prefix, sep, xs, n) == prev + more);
        lemma_width_sum_append(prev, more);
        lemma_width_sum_nonneg(more);
    }
}

/// What the one-line layout of the first `k` items is: the line of the
/// first `m` of them, all `k` where it did not stop, else the first line
/// that came out too wide.
proof fn lemma_args_one(prefix: Seq<char>, sep: Seq<char>, suffix: Seq<char>, xs: Seq<Arg>, w: u32, k: int) -> (m: int)
    requires
        args_width_free(xs),
        0 <= k <= xs.len(),
    ensures
        0 <= m <= k,
        args_one(prefix, sep, suffix, xs, w, k).0 == args_line(prefix, sep, xs, m),
        args_one(prefix, sep, suffix, xs, w, k).1 ==> width(args_line(prefix, sep, xs, m)) > sub_sat(
            w,
            width(suffix) as int,
        ),
        !args_one(prefix, sep, suffix, xs, w, k).1 ==> m == k,
    decreases k,
{
    if k == 0 {
        0
    } else {
        let m0 = lemma_args_one(prefix, sep, suffix, xs, w, k - 1);
        if args_one(prefix, sep, suffix, xs, w, k - 1).1 {
            m0
        } else {
            let o = args_one(prefix, sep, suffix, xs, w, k - 1).0;
            let overhead = crate::lsp::miniformat::capped(width(o) + width(sep) + width(suffix)) + 1;
            assert(arg_text(xs[k - 1], sub_sat(w, overhead)) == arg_text(xs[k - 1], 0));
            k
        }
    }
}

/// Items whose text does not depend on the width are laid out on one line
/// (`prefix`, the items separated by `sep` and a space, `suffix`) where
/// that line fits in the width `w`, and one per line otherwise.
pub proof fn lemma_args_fit_or_break(prefix: Seq<char>, sep: Seq<char>, suffix: Seq<char>, xs: Seq<Arg>, w: u32)
    requires
        args_width_free(xs),
        width_sum(args_line(prefix, sep, xs, xs.len() as int) + suffix) <= u32::MAX,
    ensures
        args_layout(prefix, sep, suffix, xs, w) == (if width(args_line(prefix, sep, xs, xs.len() as int) + suffix) <= w {
            args_line(prefix, sep, xs, xs.len() as int) + suffix
        } else {
            args_multi(prefix, sep, xs, w, xs.len() as int) + "\n"@ + suffix
        }),
{
    let n = xs.len() as int;
    let m = lemma_args_one(prefix, sep, suffix, xs, w, n);
    if args_one(prefix, sep, suffix, xs, w, n).1 {
        lemma_args_line_grows(prefix, sep, xs, m, n);
        lemma_stopped_too_wide(args_line(prefix, sep, xs, m), args_line(prefix, sep, xs, n), suffix, w);
    }
}

/// Whether the text of each item of `xs` is the same at every width.
pub open spec fn formals_width_free(xs: Seq<Formal>) -> bool {
    forall|i: int, a: u32, b: u32| 0 <= i < xs.len() ==> #[trigger] formal_text(xs[i], a) == #[trigger] formal_text(xs[i], b)
}

/// `prefix` and the first `k` items of `xs`, each as [`formal_text`] writes it
/// (here at width 0), followed by `sep` and a space unless it is the last
/// of `xs`.
pub open spec fn formals_line(prefix: Seq<char>, sep: Seq<char>, xs: Seq<Formal>, k: int) -> Seq<char>
    decreases k,
{
    if k <= 0 || k > xs.len() {
        prefix
    } else {
        formals_line(prefix, sep, xs, k - 1) + formal_text(xs[k - 1], 0) + (if k < xs.len() {
            sep + " "@
        } else {
            Seq::empty()
        })
    }
}

/// The line only grows as items are added.
proof fn lemma_formals_line_grows(prefix: Seq<char>, sep: Seq<char>, xs: Seq<Formal>, m: int, n: int)
    requires
        0 <= m <= n <= xs.len(),
    ensures
        width_sum(formals_line(prefix, sep, xs, m)) <= width_sum(formals_line(prefix, sep, xs, n)),
    decreases n - m,
{
    if m < n {
        lemma_formals_line_grows(prefix, sep, xs, m, n - 1);
        let prev = formals_line(prefix, sep, xs, n - 1);
        let more = formal_text(xs[n - 1], 0) + (if n < xs.len() {
            sep + " "@
        } else {
            Seq::<char>::empty()
        });
        assert(formals_line(prefix, sep, xs, n) == prev + more);
        lemma_width_sum_append(prev, more);
        lemma_width_sum_nonneg(more);
    }
}

/// What the one-line layout of the first `k` items is: the line of the
/// first `m` of them, all `k` where it did not stop, else the first line
/// that came out too wide.
proof fn lemma_formals_one(prefix: Seq<char>, sep: Seq<char>, suffix: Seq<char>, xs: Seq<Formal>, w: u32, k: int) -> (m: int)
    requires
        formals_width_free(xs),
        0 <= k <= xs.len(),
    ensures
        0 <= m <= k,
        formals_one(prefix, sep, suffix, xs, w, k).0 == formals_line(prefix, sep, xs, m),
        formals_one(prefix, sep, suffix, xs, w, k).1 ==> width(formals_line(prefix, sep, xs, m)) > sub_sat(
            w,
            width(suffix) as int,
        ),
        !formals_one(prefix, sep, suffix, xs, w, k).1 ==> m == k,
    decreases k,
{
    if k == 0 {
        0
    } else {
        let m0 = lemma_formals_one(prefix, sep, suffix, xs, w, k - 1);
        if formals_one(prefix, sep, suffix, xs, w, k - 1).1 {
            m0
        } else {
            let o = formals_one(prefix, sep, suffix, xs, w, k - 1).0;
            let overhead = crate::lsp::miniformat::capped(width(o) + width(sep) + width(suffix)) + 1;
            assert(formal_text(xs[k - 1], sub_sat(w, overhead)) == formal_text(xs[k - 1], 0));
            k
        }
    }
}

/// Items whose text does not depend on the width are laid out on one line
/// (`prefix`, the items separated by `sep` and a space, `suffix`) where
/// that line fits in the width `w`, and one per line otherwise.
pub proof fn lemma_formals_fit_or_break(prefix: Seq<char>, sep: Seq<char>, suffix: Seq<char>, xs: Seq<Formal>, w: u32)
    requires
        formals_width_free(xs),
        width_sum(formals_line(prefix, sep, xs, xs.len() as int) + suffix) <= u32::MAX,
    ensures
        formals_layout(prefix, sep, suffix, xs, w) == (if width(formals_line(prefix, sep, xs, xs.len() as int) + suffix) <= w {
            formals_line(prefix, sep, xs, xs.len() as int) + suffix
        } else {
            formals_multi(prefix, sep, xs, w, xs.len() as int) + "\n"@ + suffix
        }),
{
    let n = xs.len() as int;
    let m = lemma_formals_one(prefix, sep, suffix, xs, w, n);
    if formals_one(prefix, sep, suffix, xs, w, n).1 {
        lemma_formals_line_grows(prefix, sep, xs, m, n);
        lemma_stopped_too_wide(formals_line(prefix, sep, xs, m), formals_line(prefix, sep, xs, n), suffix, w);
    }
}

} // verus!
