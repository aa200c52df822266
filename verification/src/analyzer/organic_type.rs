//! The types of Organic values.

use std::sync::Arc;

use vstd::prelude::*;

use crate::analyzer::function::{Function, ParamInfo};

verus! {

/// The type of an Organic value.
#[derive(Debug, Eq, Ord, PartialEq, PartialOrd)]
pub enum OrganicType {
    AudioEffect,
    Boolean,
    Generic(String),
    Function(Arc<Function>),
    List(Box<OrganicType>),
    Number,
    RandomArg,
    RoundArg,
    SequenceArg,
    String,
    Unknown,
}

/// The mathematical content of an [`OrganicType`]: a function type is its
/// parameters (name, type, whether it has a default) and its return type.
pub enum TypeV {
    AudioEffect,
    Boolean,
    Generic(Seq<char>),
    Function(Seq<ParamV>, Box<TypeV>),
    List(Box<TypeV>),
    Number,
    RandomArg,
    RoundArg,
    SequenceArg,
    String,
    Unknown,
}

/// The mathematical content of a [`ParamInfo`].
pub struct ParamV {
    pub name: Seq<char>,
    pub typ: TypeV,
    pub has_default: bool,
}

pub open spec fn type_view(t: &OrganicType) -> TypeV
    decreases t,
{
    match t {
        OrganicType::AudioEffect => TypeV::AudioEffect,
        OrganicType::Boolean => TypeV::Boolean,
        OrganicType::Generic(name) => TypeV::Generic(name@),
        OrganicType::Function(f) => TypeV::Function(
            params_view(f.params@),
            Box::new(type_view(&f.return_type)),
        ),
        OrganicType::List(inner) => TypeV::List(Box::new(type_view(inner))),
        OrganicType::Number => TypeV::Number,
        OrganicType::RandomArg => TypeV::RandomArg,
        OrganicType::RoundArg => TypeV::RoundArg,
        OrganicType::SequenceArg => TypeV::SequenceArg,
        OrganicType::String => TypeV::String,
        OrganicType::Unknown => TypeV::Unknown,
    }
}

pub open spec fn params_view(ps: Seq<ParamInfo>) -> Seq<ParamV>
    decreases ps,
{
    if ps.len() == 0 {
        Seq::empty()
    } else {
        params_view(ps.drop_last()).push(param_view(&ps.last()))
    }
}

pub open spec fn param_view(p: &ParamInfo) -> ParamV
    decreases p,
{
    ParamV { name: p.0@, typ: type_view(&p.1), has_default: p.2 }
}

pub proof fn lemma_params_view(ps: Seq<ParamInfo>)
    ensures
        params_view(ps).len() == ps.len(),
        forall|i: int| 0 <= i < ps.len() ==> #[trigger] params_view(ps)[i] == param_view(&ps[i]),
    decreases ps.len(),
{
    if ps.len() > 0 {
        lemma_params_view(ps.drop_last());
        assert forall|i: int| 0 <= i < ps.len() implies #[trigger] params_view(ps)[i] == param_view(
            &ps[i],
        ) by {
            if i < ps.len() - 1 {
                assert(ps.drop_last()[i] == ps[i]);
            }
        }
    }
}

/// Shares a function type; wraps `Arc::clone`, which yields a pointer to the
/// same value.
#[verifier::external_body]
pub(crate) fn share_function(f: &Arc<Function>) -> (r: Arc<Function>)
    ensures
        r == *f,
{
    Arc::clone(f)
}

/// A copy of `t`.
pub fn clone_type(t: &OrganicType) -> (r: OrganicType)
    ensures
        r == *t,
    decreases t,
{
    match t {
        OrganicType::AudioEffect => OrganicType::AudioEffect,
        OrganicType::Boolean => OrganicType::Boolean,
        OrganicType::Generic(name) => OrganicType::Generic(name.clone()),
        OrganicType::Function(f) => OrganicType::Function(share_function(f)),
        OrganicType::List(inner) => OrganicType::List(Box::new(clone_type(inner))),
        OrganicType::Number => OrganicType::Number,
        OrganicType::RandomArg => OrganicType::RandomArg,
        OrganicType::RoundArg => OrganicType::RoundArg,
        OrganicType::SequenceArg => OrganicType::SequenceArg,
        OrganicType::String => OrganicType::String,
        OrganicType::Unknown => OrganicType::Unknown,
    }
}

/// A copy of `f`.
pub fn clone_function(f: &Function) -> (r: Function)
    ensures
        r.params@ == f.params@,
        r.return_type == f.return_type,
{
    let mut params: Vec<ParamInfo> = Vec::new();
    let mut i: usize = 0;
    while i < f.params.len()
        invariant
            i <= f.params@.len(),
            params@ == f.params@.take(i as int),
        decreases f.params@.len() - i,
    {
        let p = &f.params[i];
        params.push(ParamInfo(p.0.clone(), clone_type(&p.1), p.2));
        i = i + 1;
        proof {
            assert(params@ =~= f.params@.take(i as int));
        }
    }
    proof {
        assert(f.params@.take(i as int) =~= f.params@);
    }
    Function { params, return_type: clone_type(&f.return_type) }
}

/// Whether `a` and `b` are the same type.
pub fn same_type(a: &OrganicType, b: &OrganicType) -> (r: bool)
    ensures
        r == (a@ == b@),
    decreases a,
{
    match (a, b) {
        (OrganicType::AudioEffect, OrganicType::AudioEffect) => true,
        (OrganicType::Boolean, OrganicType::Boolean) => true,
        (OrganicType::Generic(x), OrganicType::Generic(y)) => *x == *y,
        (OrganicType::Function(f), OrganicType::Function(g)) => {
            let n = f.params.len();
            if n != g.params.len() {
                proof {
                    lemma_params_view(f.params@);
                    lemma_params_view(g.params@);
                }
                return false;
            }
            let mut i: usize = 0;
            proof {
                lemma_params_view(f.params@);
                lemma_params_view(g.params@);
            }
            #[verifier::loop_isolation(false)]
            while i < n
                invariant
                    n == f.params.len() == g.params.len(),
                    i <= n,
                    params_view(f.params@).len() == n,
                    params_view(g.params@).len() == n,
                    forall|k: int| 0 <= k < f.params@.len() ==> #[trigger] params_view(f.params@)[k]
                        == param_view(&f.params@[k]),
                    forall|k: int| 0 <= k < g.params@.len() ==> #[trigger] params_view(g.params@)[k]
                        == param_view(&g.params@[k]),
                    forall|k: int| 0 <= k < i ==> params_view(f.params@)[k] == params_view(
                        g.params@,
                    )[k],
                decreases n - i,
            {
                let p = &f.params[i];
                let q = &g.params[i];
                proof {
                    assert(decreases_to!(*a => f.params));
                    assert(decreases_to!(f.params => f.params@));
                    assert(decreases_to!(f.params@ => f.params@[i as int]));
                    assert(decreases_to!(f.params@[i as int] => f.params@[i as int].1));
                }
                if !(p.0 == q.0 && p.2 == q.2 && same_type(&p.1, &q.1)) {
                    proof {
                        assert(params_view(f.params@)[i as int] != params_view(g.params@)[i as int]);
                        assert(params_view(f.params@) != params_view(g.params@));
                    }
                    return false;
                }
                i = i + 1;
            }
            proof {
                assert(params_view(f.params@) =~= params_view(g.params@));
            }
            same_type(&f.return_type, &g.return_type)
        },
        (OrganicType::List(x), OrganicType::List(y)) => same_type(x, y),
        (OrganicType::Number, OrganicType::Number) => true,
        (OrganicType::RandomArg, OrganicType::RandomArg) => true,
        (OrganicType::RoundArg, OrganicType::RoundArg) => true,
        (OrganicType::SequenceArg, OrganicType::SequenceArg) => true,
        (OrganicType::String, OrganicType::String) => true,
        (OrganicType::Unknown, OrganicType::Unknown) => true,
        _ => false,
    }
}

impl View for OrganicType {
    type V = TypeV;

    open spec fn view(&self) -> TypeV {
        type_view(self)
    }
}

} // verus!
