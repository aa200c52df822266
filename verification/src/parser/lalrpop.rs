//! Building blocks for the grammar's actions.

use vstd::prelude::*;

use crate::lexer::token::{Token, TokenType};
use crate::parser::ast::{Arg, Expr, Formal, Symbol};
use crate::parser::diagnostics::ParserError;

verus! {

/// A name written in a parameter list, with or without a value.
#[derive(Debug)]
pub struct Param {
    pub symbol: Symbol,
    pub value_option: Option<Expr>,
}

/// The index of the first parameter without a value, or the length.
pub open spec fn first_missing(params: Seq<Param>) -> int
    decreases params.len(),
{
    if params.len() == 0 {
        0
    } else if params[0].value_option is None {
        0
    } else {
        1 + first_missing(params.drop_first())
    }
}

proof fn lemma_first_missing(params: Seq<Param>)
    ensures
        0 <= first_missing(params) <= params.len(),
        forall|k: int| 0 <= k < first_missing(params) ==> #[trigger] params[k].value_option is Some,
        first_missing(params) < params.len() ==> params[first_missing(params)].value_option is None,
    decreases params.len(),
{
    if params.len() > 0 && params[0].value_option is Some {
        lemma_first_missing(params.drop_first());
        assert forall|k: int| 0 <= k < first_missing(params) implies #[trigger] params[k].value_option is Some by {
            if k > 0 {
                assert(params[k] == params.drop_first()[k - 1]);
            }
        }
        if first_missing(params) < params.len() {
            assert(params[first_missing(params)] == params.drop_first()[first_missing(params) - 1]);
        }
    }
}

/// The arguments of a call: every parameter with its value, or the error
/// for the first parameter that lacks one.
pub fn as_args(params: Vec<Param>) -> (r: Result<Vec<Arg>, ParserError>)
    ensures
        first_missing(params@) == params@.len() <==> r is Ok,
        r matches Ok(args) ==> args@.len() == params@.len() && forall|k: int|
            0 <= k < args@.len() ==> args@[k].name.name@ == params@[k].symbol.name@
                && args@[k].name.token@ == params@[k].symbol.token@ && Some(args@[k].value)
                == params@[k].value_option,
        r matches Err(e) ==> e matches ParserError::MissingParameterValue { token } && token@
            == params@[first_missing(params@)].symbol.token@,
{
    let ghost ps = params@;
    proof {
        lemma_first_missing(ps);
    }
    let mut out: Vec<Arg> = Vec::new();
    let mut rest = params;
    proof {
        assert(rest@ =~= ps.skip(0));
    }
    while rest.len() > 0
        invariant
            ps == params@,
            rest@.len() + out@.len() == ps.len(),
            rest@ == ps.skip(out@.len() as int),
            out@.len() <= first_missing(ps),
            0 <= first_missing(ps) <= ps.len(),
            forall|k: int| 0 <= k < first_missing(ps) ==> #[trigger] ps[k].value_option is Some,
            first_missing(ps) < ps.len() ==> ps[first_missing(ps)].value_option is None,
            forall|k: int|
                0 <= k < out@.len() ==> out@[k].name.name@ == ps[k].symbol.name@
                    && out@[k].name.token@ == ps[k].symbol.token@ && Some(out@[k].value)
                    == ps[k].value_option,
        decreases rest@.len(),
    {
        let param = rest.remove(0);
        proof {
            assert(param == ps[out@.len() as int]);
            assert(rest@ =~= ps.skip(out@.len() as int + 1));
        }
        match param.value_option {
            Some(value) => {
                out.push(Arg { name: param.symbol, value });
            },
            None => {
                proof {
                    if out@.len() < first_missing(ps) {
                        assert(ps[out@.len() as int].value_option is Some);
                    }
                    assert(first_missing(ps) == out@.len());
                    assert(param.symbol.token@ == ps[first_missing(ps)].symbol.token@);
                    assert(first_missing(ps) != ps.len());
                }
                let e = ParserError::MissingParameterValue { token: param.symbol.token };
                assert(e matches ParserError::MissingParameterValue { token } && token@
                    == ps[first_missing(ps)].symbol.token@);
                return Err(e);
            },
        }
    }
    Ok(out)
}

/// The formal parameters of a function definition: every parameter with its
/// default, or the error for the first parameter that lacks one.
pub fn as_formals(params: Vec<Param>) -> (r: Result<Vec<Formal>, ParserError>)
    ensures
        first_missing(params@) == params@.len() <==> r is Ok,
        r matches Ok(formals) ==> formals@.len() == params@.len() && forall|k: int|
            0 <= k < formals@.len() ==> formals@[k].name.name@ == params@[k].symbol.name@
                && formals@[k].name.token@ == params@[k].symbol.token@ && Some(
                formals@[k].default,
            ) == params@[k].value_option,
        r matches Err(e) ==> e matches ParserError::MissingParameterValue { token } && token@
            == params@[first_missing(params@)].symbol.token@,
{
    let ghost ps = params@;
    proof {
        lemma_first_missing(ps);
    }
    let mut out: Vec<Formal> = Vec::new();
    let mut rest = params;
    proof {
        assert(rest@ =~= ps.skip(0));
    }
    while rest.len() > 0
        invariant
            ps == params@,
            rest@.len() + out@.len() == ps.len(),
            rest@ == ps.skip(out@.len() as int),
            out@.len() <= first_missing(ps),
            0 <= first_missing(ps) <= ps.len(),
            forall|k: int| 0 <= k < first_missing(ps) ==> #[trigger] ps[k].value_option is Some,
            first_missing(ps) < ps.len() ==> ps[first_missing(ps)].value_option is None,
            forall|k: int|
                0 <= k < out@.len() ==> out@[k].name.name@ == ps[k].symbol.name@
                    && out@[k].name.token@ == ps[k].symbol.token@ && Some(out@[k].default)
                    == ps[k].value_option,
        decreases rest@.len(),
    {
        let param = rest.remove(0);
        proof {
            assert(param == ps[out@.len() as int]);
            assert(rest@ =~= ps.skip(out@.len() as int + 1));
        }
        match param.value_option {
            Some(value) => {
                out.push(Formal { name: param.symbol, default: value });
            },
            None => {
                proof {
                    if out@.len() < first_missing(ps) {
                        assert(ps[out@.len() as int].value_option is Some);
                    }
                    assert(first_missing(ps) == out@.len());
                    assert(param.symbol.token@ == ps[first_missing(ps)].symbol.token@);
                    assert(first_missing(ps) != ps.len());
                }
                let e = ParserError::MissingParameterValue { token: param.symbol.token };
                assert(e matches ParserError::MissingParameterValue { token } && token@
                    == ps[first_missing(ps)].symbol.token@);
                return Err(e);
            },
        }
    }
    Ok(out)
}

/// The symbol an identifier token stands for.
pub fn as_symbol(ident: &Token, descriptor: &str) -> (r: Symbol)
    requires
        ident.token_type@ is Identifier,
    ensures
        r.name@ == ident.token_type@->Identifier_0,
        r.token@ == ident@,
{
    match &ident.token_type {
        TokenType::Identifier(name) => Symbol { name: name.clone(), token: ident.clone() },
        _ => {
            proof {
                assert(false);
            }
            Symbol { name: String::new(), token: ident.clone() }
        },
    }
}

/// `head` followed by `tail`.
pub fn sequence<T>(head: T, tail: Vec<T>) -> (r: Vec<T>)
    ensures
        r@ == seq![head] + tail@,
{
    let mut r = Vec::new();
    r.push(head);
    let mut t = tail;
    let ghost tv = t@;
    r.append(&mut t);
    proof {
        assert(r@ =~= seq![head] + tv);
    }
    r
}

} // verus!
