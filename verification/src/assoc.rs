use vstd::prelude::*;
use crate::text::str_eq;

verus! {

/// The value stored under the first entry whose key reads `k`, if any: an
/// association list read as a map from text keys.
pub open spec fn assoc_get<V>(m: Seq<(String, V)>, k: Seq<char>) -> Option<V>
    decreases m.len(),
{
    if m.len() == 0 {
        None
    } else if m[0].0@ == k {
        Some(m[0].1)
    } else {
        assoc_get(m.drop_first(), k)
    }
}

/// Index of the first entry whose key reads `k`, or `m.len()`.
pub open spec fn assoc_index<V>(m: Seq<(String, V)>, k: Seq<char>) -> int
    decreases m.len(),
{
    if m.len() == 0 || m[0].0@ == k {
        0
    } else {
        1 + assoc_index(m.drop_first(), k)
    }
}

pub proof fn lemma_assoc_index<V>(m: Seq<(String, V)>, k: Seq<char>)
    ensures
        0 <= assoc_index(m, k) <= m.len(),
        assoc_index(m, k) < m.len() ==> m[assoc_index(m, k)].0@ == k && assoc_get(m, k) == Some(
            m[assoc_index(m, k)].1,
        ),
        assoc_index(m, k) == m.len() ==> assoc_get(m, k) is None,
        forall|j: int| 0 <= j < assoc_index(m, k) ==> #[trigger] m[j].0@ != k,
    decreases m.len(),
{
    if m.len() > 0 && m[0].0@ != k {
        lemma_assoc_index(m.drop_first(), k);
        assert forall|j: int| 0 <= j < assoc_index(m, k) implies #[trigger] m[j].0@ != k by {
            if j > 0 {
                assert(m[j] == m.drop_first()[j - 1]);
            }
        }
    }
}

pub proof fn lemma_assoc_index_unique<V>(m: Seq<(String, V)>, k: Seq<char>, i: int)
    requires
        0 <= i <= m.len(),
        i < m.len() ==> m[i].0@ == k,
        forall|j: int| 0 <= j < i ==> #[trigger] m[j].0@ != k,
    ensures
        assoc_index(m, k) == i,
    decreases m.len(),
{
    if m.len() > 0 && m[0].0@ != k {
        assert forall|j: int| 0 <= j < i - 1 implies #[trigger] m.drop_first()[j].0@ != k by {
            assert(m.drop_first()[j] == m[j + 1]);
        }
        lemma_assoc_index_unique(m.drop_first(), k, i - 1);
    }
}

/// Reading after pushing an entry: the earlier entries take precedence.
pub proof fn lemma_assoc_get_push<V>(m: Seq<(String, V)>, e: (String, V), q: Seq<char>)
    ensures
        assoc_get(m.push(e), q) == (if assoc_get(m, q) is Some {
            assoc_get(m, q)
        } else if e.0@ == q {
            Some(e.1)
        } else {
            None
        }),
    decreases m.len(),
{
    let p = m.push(e);
    if m.len() > 0 {
        assert(p.drop_first() =~= m.drop_first().push(e));
        assert(p[0] == m[0]);
        lemma_assoc_get_push(m.drop_first(), e, q);
        if m[0].0@ == q {
            assert(assoc_get(p, q) == Some(m[0].1));
        } else {
            assert(assoc_get(p, q) == assoc_get(p.drop_first(), q));
            assert(assoc_get(m, q) == assoc_get(m.drop_first(), q));
        }
    } else {
        assert(p.drop_first() =~= Seq::<(String, V)>::empty());
        assert(p[0] == e);
        assert(assoc_get(m, q) is None);
        if e.0@ != q {
            assert(assoc_get(p, q) == assoc_get(p.drop_first(), q));
        }
    }
}

/// Replacing the value of an entry whose key reads `k` changes only what `k` reads.
pub proof fn lemma_assoc_get_update<V>(m: Seq<(String, V)>, i: int, e: (String, V), q: Seq<char>)
    requires
        0 <= i < m.len(),
        e.0@ == m[i].0@,
        forall|j: int| 0 <= j < i ==> #[trigger] m[j].0@ != e.0@,
    ensures
        assoc_get(m.update(i, e), q) == (if q == e.0@ {
            Some(e.1)
        } else {
            assoc_get(m, q)
        }),
    decreases m.len(),
{
    let u = m.update(i, e);
    if i == 0 {
        assert(u[0] == e);
        if q != e.0@ {
            assert(u.drop_first() =~= m.drop_first());
            assert(assoc_get(u, q) == assoc_get(u.drop_first(), q));
            assert(assoc_get(m, q) == assoc_get(m.drop_first(), q));
        }
    }
    if i > 0 {
        assert(u[0] == m[0]);
        assert(m.update(i, e).drop_first() =~= m.drop_first().update(i - 1, e));
        assert forall|j: int| 0 <= j < i - 1 implies #[trigger] m.drop_first()[j].0@ != e.0@ by {
            assert(m.drop_first()[j] == m[j + 1]);
        }
        lemma_assoc_get_update(m.drop_first(), i - 1, e, q);
    }
}

/// The entry stored under `k`, if any.
pub fn assoc_find<V>(m: &Vec<(String, V)>, k: &str) -> (r: Option<usize>)
    ensures
        match r {
            Some(i) => i < m@.len() && i == assoc_index(m@, k@) && assoc_get(m@, k@) == Some(m@[i as int].1),
            None => assoc_get(m@, k@) is None && assoc_index(m@, k@) == m@.len(),
        },
{
    let mut i: usize = 0;
    while i < m.len() && !str_eq(m[i].0.as_str(), k)
        invariant
            i <= m@.len(),
            forall|j: int| 0 <= j < i ==> #[trigger] m@[j].0@ != k@,
        decreases m@.len() - i,
    {
        i = i + 1;
    }
    proof {
        lemma_assoc_index_unique(m@, k@, i as int);
        lemma_assoc_index(m@, k@);
    }
    if i < m.len() {
        Some(i)
    } else {
        None
    }
}

/// The value stored under `k`, if any.
pub fn assoc_lookup<'a, V>(m: &'a Vec<(String, V)>, k: &str) -> (r: Option<&'a V>)
    ensures
        match assoc_get(m@, k@) {
            Some(v) => r == Some(&v),
            None => r is None,
        },
{
    match assoc_find(m, k) {
        Some(i) => Some(&m[i].1),
        None => None,
    }
}

/// Stores `v` under `k`, replacing the value already stored there.
pub fn assoc_insert<V>(m: &mut Vec<(String, V)>, k: String, v: V)
    ensures
        forall|q: Seq<char>| #[trigger] assoc_get(final(m)@, q) == (if q == k@ {
            Some(v)
        } else {
            assoc_get(old(m)@, q)
        }),
{
    let ghost kv = k@;
    match assoc_find(m, k.as_str()) {
        Some(i) => {
            proof {
                lemma_assoc_index(old(m)@, kv);
            }
            let ghost e = (k, v);
            m.set(i, (k, v));
            proof {
                assert forall|q: Seq<char>| #[trigger] assoc_get(m@, q) == (if q == kv {
                    Some(v)
                } else {
                    assoc_get(old(m)@, q)
                }) by {
                    lemma_assoc_get_update(old(m)@, i as int, e, q);
                }
            }
        },
        None => {
            let ghost e = (k, v);
            m.push((k, v));
            proof {
                assert forall|q: Seq<char>| #[trigger] assoc_get(m@, q) == (if q == kv {
                    Some(v)
                } else {
                    assoc_get(old(m)@, q)
                }) by {
                    lemma_assoc_get_push(old(m)@, e, q);
                }
            }
        },
    }
}

/// Removes every entry stored under `k`.
pub fn assoc_remove<V>(m: &mut Vec<(String, V)>, k: &str)
    ensures
        forall|q: Seq<char>| #[trigger] assoc_get(final(m)@, q) == (if q == k@ {
            None
        } else {
            assoc_get(old(m)@, q)
        }),
{
    let mut kept: Vec<(String, V)> = Vec::new();
    let mut rest: Vec<(String, V)> = Vec::new();
    core::mem::swap(&mut rest, m);
    let ghost all = rest@;
    let mut i: usize = 0;
    let n = rest.len();
    while i < n
        invariant
            n == all.len(),
            i <= n,
            rest@ == all.subrange(i as int, n as int),
            forall|q: Seq<char>| #[trigger] assoc_get(kept@, q) == (if q == k@ {
                None
            } else {
                assoc_get(all.take(i as int), q)
            }),
        decreases n - i,
    {
        let e = rest.remove(0);
        proof {
            assert(e == all[i as int]);
            assert(rest@ =~= all.subrange(i + 1, n as int));
            assert(all.take(i + 1) =~= all.take(i as int).push(e));
        }
        let ghost before = kept@;
        if !str_eq(e.0.as_str(), k) {
            kept.push(e);
            proof {
                assert forall|q: Seq<char>| #[trigger] assoc_get(kept@, q) == (if q == k@ {
                    None
                } else {
                    assoc_get(all.take(i + 1), q)
                }) by {
                    lemma_assoc_get_push(before, e, q);
                    lemma_assoc_get_push(all.take(i as int), e, q);
                }
            }
        } else {
            proof {
                assert forall|q: Seq<char>| #[trigger] assoc_get(kept@, q) == (if q == k@ {
                    None
                } else {
                    assoc_get(all.take(i + 1), q)
                }) by {
                    lemma_assoc_get_push(all.take(i as int), e, q);
                }
            }
        }
        i = i + 1;
    }
    proof {
        assert(all.take(n as int) =~= all);
    }
    *m = kept;
}

} // verus!
