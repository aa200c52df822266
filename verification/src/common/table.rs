//! Finite maps kept as vectors of key/value pairs, with at most one entry
//! per key, looked up by the keys' views.

use vstd::prelude::*;

verus! {

/// Equality of values by their views.
pub trait ViewEq: View + Sized {
    fn view_eq(&self, other: &Self) -> (r: bool)
        ensures
            r == (self@ == other@),
    ;
}

impl ViewEq for String {
    fn view_eq(&self, other: &Self) -> (r: bool) {
        *self == *other
    }
}

/// The index of the last entry of `e` whose key has view `k`, or -1.
pub open spec fn key_index<K: View, V>(e: Seq<(K, V)>, k: K::V) -> int
    decreases e.len(),
{
    if e.len() == 0 {
        -1
    } else if e.last().0@ == k {
        e.len() - 1
    } else {
        key_index(e.drop_last(), k)
    }
}

/// The value stored under `k`, if any.
pub open spec fn table_get<K: View, V>(e: Seq<(K, V)>, k: K::V) -> Option<V> {
    if key_index(e, k) >= 0 {
        Some(e[key_index(e, k)].1)
    } else {
        None
    }
}

/// No key occurs twice.
pub open spec fn keys_unique<K: View, V>(e: Seq<(K, V)>) -> bool {
    forall|i: int, j: int| 0 <= i < j < e.len() ==> e[i].0@ != e[j].0@
}

pub proof fn lemma_key_index_bounds<K: View, V>(e: Seq<(K, V)>, k: K::V)
    ensures
        -1 <= key_index(e, k) < e.len(),
        key_index(e, k) >= 0 ==> e[key_index(e, k)].0@ == k,
        key_index(e, k) == -1 ==> forall|i: int| 0 <= i < e.len() ==> e[i].0@ != k,
    decreases e.len(),
{
    if e.len() > 0 && e.last().0@ != k {
        lemma_key_index_bounds(e.drop_last(), k);
        assert forall|i: int| 0 <= i < e.len() && key_index(e, k) == -1 implies e[i].0@ != k by {
            if i < e.len() - 1 {
                assert(e.drop_last()[i] == e[i]);
            }
        }
    }
}

/// With unique keys, the entry at `i` is the one found for its key.
pub proof fn lemma_key_index_unique<K: View, V>(e: Seq<(K, V)>, i: int)
    requires
        keys_unique(e),
        0 <= i < e.len(),
    ensures
        key_index(e, e[i].0@) == i,
    decreases e.len(),
{
    if i < e.len() - 1 {
        assert(e.last().0@ != e[i].0@);
        assert(keys_unique(e.drop_last()));
        assert(e.drop_last()[i] == e[i]);
        lemma_key_index_unique(e.drop_last(), i);
    }
}

pub proof fn lemma_key_index_push<K: View, V>(e: Seq<(K, V)>, x: (K, V), k: K::V)
    ensures
        key_index(e.push(x), k) == if x.0@ == k {
            e.len() as int
        } else {
            key_index(e, k)
        },
{
    assert(e.push(x).drop_last() =~= e);
}

pub proof fn lemma_key_index_update<K: View, V>(e: Seq<(K, V)>, i: int, x: (K, V), k: K::V)
    requires
        0 <= i < e.len(),
        keys_unique(e),
        x.0@ == e[i].0@,
    ensures
        key_index(e.update(i, x), k) == key_index(e, k),
        keys_unique(e.update(i, x)),
{
    let u = e.update(i, x);
    lemma_key_index_bounds(e, k);
    lemma_key_index_bounds(u, k);
    assert(keys_unique(u));
    if key_index(e, k) >= 0 {
        lemma_key_index_unique(e, key_index(e, k));
        lemma_key_index_unique(u, key_index(e, k));
    } else if key_index(u, k) >= 0 {
        lemma_key_index_unique(u, key_index(u, k));
        assert(u[key_index(u, k)].0@ == e[key_index(u, k)].0@);
    }
}

/// Finds the entry stored under the view of `k`.
pub fn find_key<K: ViewEq, V>(e: &Vec<(K, V)>, k: &K) -> (r: Option<usize>)
    ensures
        match r {
            Some(i) => i as int == key_index(e@, k@),
            None => key_index(e@, k@) == -1,
        },
{
    let mut j = e.len();
    proof {
        assert(e@.take(j as int) =~= e@);
    }
    while j > 0
        invariant
            j <= e.len(),
            key_index(e@, k@) == key_index(e@.take(j as int), k@),
        decreases j,
    {
        proof {
            assert(e@.take(j as int).drop_last() =~= e@.take(j - 1));
        }
        if e[j - 1].0.view_eq(k) {
            return Some(j - 1);
        }
        j = j - 1;
    }
    None
}

/// Stores `v` under `k`, replacing what was stored there.
pub fn table_insert<K: ViewEq, V>(e: &mut Vec<(K, V)>, k: K, v: V)
    requires
        keys_unique(old(e)@),
    ensures
        keys_unique(final(e)@),
        table_get(final(e)@, k@) == Some(v),
        forall|q: K::V| q != k@ ==> #[trigger] table_get(final(e)@, q) == table_get(old(e)@, q),
        forall|q: K::V| #[trigger] key_index(old(e)@, q) >= 0 ==> key_index(final(e)@, q) >= 0,
{
    let ghost k_view = k@;
    match find_key(e, &k) {
        Some(i) => {
            proof {
                lemma_key_index_bounds(e@, k_view);
            }
            let ghost before = e@;
            e.set(i, (k, v));
            proof {
                assert forall|q: K::V| #[trigger] key_index(e@, q) == key_index(before, q) by {
                    lemma_key_index_update(before, i as int, (e@[i as int].0, v), q);
                }
                lemma_key_index_update(before, i as int, (e@[i as int].0, v), k_view);
                assert forall|q: K::V| q != k_view implies #[trigger] table_get(e@, q) == table_get(
                    before,
                    q,
                ) by {
                    lemma_key_index_bounds(before, q);
                }
            }
        },
        None => {
            let ghost before = e@;
            proof {
                lemma_key_index_bounds(before, k_view);
            }
            e.push((k, v));
            proof {
                assert forall|q: K::V| #[trigger] key_index(e@, q) == if q == k_view {
                    before.len() as int
                } else {
                    key_index(before, q)
                } by {
                    lemma_key_index_push(before, e@.last(), q);
                }
                assert(keys_unique(e@)) by {
                    assert forall|a: int, b: int| 0 <= a < b < e@.len() implies e@[a].0@
                        != e@[b].0@ by {
                        if b == e@.len() - 1 {
                            assert(e@[a] == before[a]);
                        } else {
                            assert(e@[a] == before[a] && e@[b] == before[b]);
                        }
                    }
                }
                assert forall|q: K::V| q != k_view implies #[trigger] table_get(e@, q) == table_get(
                    before,
                    q,
                ) by {
                    lemma_key_index_bounds(before, q);
                }
                assert forall|q: K::V| #[trigger] key_index(before, q) >= 0 implies key_index(
                    e@,
                    q,
                ) >= 0 by {
                    lemma_key_index_bounds(before, q);
                }
            }
        },
    }
}

/// Removes what is stored under the view of `k`, returning it.
pub fn table_remove<K: ViewEq, V>(e: &mut Vec<(K, V)>, k: &K) -> (r: Option<V>)
    requires
        keys_unique(old(e)@),
    ensures
        keys_unique(final(e)@),
        r == table_get(old(e)@, k@),
        table_get(final(e)@, k@) is None,
        forall|q: K::V| q != k@ ==> #[trigger] table_get(final(e)@, q) == table_get(old(e)@, q),
{
    let ghost before = e@;
    proof {
        lemma_key_index_bounds(before, k@);
    }
    match find_key(e, k) {
        None => None,
        Some(i) => {
            let (_, v) = e.remove(i);
            proof {
                let after = e@;
                assert(after =~= before.subrange(0, i as int) + before.subrange(
                    i + 1,
                    before.len() as int,
                ));
                assert forall|a: int, b: int| 0 <= a < b < after.len() implies after[a].0@
                    != after[b].0@ by {
                    let a0 = if a < i {
                        a
                    } else {
                        a + 1
                    };
                    let b0 = if b < i {
                        b
                    } else {
                        b + 1
                    };
                    assert(after[a] == before[a0] && after[b] == before[b0]);
                }
                assert forall|q: K::V| #[trigger] table_get(after, q) == if q == k@ {
                    None
                } else {
                    table_get(before, q)
                } by {
                    lemma_key_index_bounds(after, q);
                    lemma_key_index_bounds(before, q);
                    if key_index(before, q) >= 0 {
                        lemma_key_index_unique(before, key_index(before, q));
                    }
                    if key_index(after, q) >= 0 {
                        lemma_key_index_unique(after, key_index(after, q));
                        let j = key_index(after, q);
                        let j0 = if j < i {
                            j
                        } else {
                            j + 1
                        };
                        assert(after[j] == before[j0]);
                        lemma_key_index_unique(before, j0);
                    } else if key_index(before, q) >= 0 && q != k@ {
                        let j0 = key_index(before, q);
                        assert(j0 != i);
                        let j = if j0 < i {
                            j0
                        } else {
                            j0 - 1
                        };
                        assert(after[j] == before[j0]);
                    }
                }
            }
            Some(v)
        },
    }
}

} // verus!
