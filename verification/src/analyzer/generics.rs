//! Binding generic type parameters while checking a call.

use vstd::prelude::*;

use crate::analyzer::organic_type::{clone_type, OrganicType, TypeV};
use crate::common::table::{find_key, keys_unique, lemma_key_index_bounds, table_get, table_insert, table_remove};

verus! {

/// The bindings of generic names to types, as a map.
pub open spec fn gen_map(e: Seq<(String, OrganicType)>) -> Map<Seq<char>, TypeV> {
    Map::new(|k: Seq<char>| table_get(e, k) is Some, |k: Seq<char>| table_get(e, k)->0@)
}

/// The type expected where `base` is declared and `got` is given: a generic
/// name already bound stands for its binding; an unbound one is bound to
/// `got`; a list of `base` matched against a list of `got` element-wise;
/// anything else is `base` itself.
pub open spec fn bind_generics(m: Map<Seq<char>, TypeV>, base: TypeV, got: TypeV) -> (
    Map<Seq<char>, TypeV>,
    TypeV,
)
    decreases base,
{
    match base {
        TypeV::Generic(name) => if m.contains_key(name) {
            (m, m[name])
        } else {
            (m.insert(name, got), got)
        },
        TypeV::List(inner) => match got {
            TypeV::List(inner_got) => {
                let (m2, t) = bind_generics(m, *inner, *inner_got);
                (m2, TypeV::List(Box::new(t)))
            },
            _ => (m, base),
        },
        _ => (m, base),
    }
}

/// The type a declared result `t` comes to: each generic name replaced by
/// its binding, which is used up; `None` where a generic name is unbound.
pub open spec fn consume_generic(m: Map<Seq<char>, TypeV>, t: TypeV) -> (
    Map<Seq<char>, TypeV>,
    Option<TypeV>,
)
    decreases t,
{
    match t {
        TypeV::Generic(name) => (
            m.remove(name),
            if m.contains_key(name) {
                Some(m[name])
            } else {
                None
            },
        ),
        TypeV::List(inner) => {
            let (m2, r) = consume_generic(m, *inner);
            (
                m2,
                match r {
                    Some(x) => Some(TypeV::List(Box::new(x))),
                    None => None,
                },
            )
        },
        _ => (m, Some(t)),
    }
}

/// Matches a declared type against a given one, binding generic names.
pub fn find_generic_bindings(bindings: &mut Vec<(String, OrganicType)>, base: OrganicType, got: &OrganicType) -> (r: OrganicType)
    requires
        keys_unique(old(bindings)@),
    ensures
        keys_unique(final(bindings)@),
        (gen_map(final(bindings)@), r@) == bind_generics(gen_map(old(bindings)@), base@, got@),
    decreases base,
{
    let ghost m = gen_map(bindings@);
    match base {
        OrganicType::Generic(name) => {
            proof {
                lemma_key_index_bounds(bindings@, name@);
            }
            match find_key(bindings, &name) {
                Some(i) => clone_type(&bindings[i].1),
                None => {
                    table_insert(bindings, name, clone_type(got));
                    proof {
                        assert(gen_map(bindings@) =~= m.insert(base@->Generic_0, got@));
                    }
                    clone_type(got)
                },
            }
        },
        OrganicType::List(inner) => match got {
            OrganicType::List(inner_got) => {
                let t = find_generic_bindings(bindings, *inner, inner_got);
                OrganicType::List(Box::new(t))
            },
            _ => OrganicType::List(inner),
        },
        _ => base,
    }
}

/// The result type of a call, once generic names are replaced by their
/// bindings (each binding used at most once).
pub fn consume_generic_binding(bindings: &mut Vec<(String, OrganicType)>, typ: &OrganicType) -> (r: Option<OrganicType>)
    requires
        keys_unique(old(bindings)@),
    ensures
        keys_unique(final(bindings)@),
        (gen_map(final(bindings)@), match r {
            Some(t) => Some(t@),
            None => None,
        }) == consume_generic(gen_map(old(bindings)@), typ@),
    decreases typ,
{
    let ghost m = gen_map(bindings@);
    match typ {
        OrganicType::Generic(name) => {
            let r = table_remove(bindings, name);
            proof {
                assert(gen_map(bindings@) =~= m.remove(name@));
            }
            r
        },
        OrganicType::List(inner) => match consume_generic_binding(bindings, inner) {
            Some(t) => Some(OrganicType::List(Box::new(t))),
            None => None,
        },
        _ => Some(clone_type(typ)),
    }
}

} // verus!
