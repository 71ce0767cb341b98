//! A list of key/value pairs used as a map: each key occurs at most once, and a key keeps the
//! place where it was first put.

use crate::strings::strings_view;
use vstd::prelude::*;

verus! {

/// `m` holds the key `k` at index `i`.
pub open spec fn key_at<V>(m: Seq<(Seq<char>, V)>, k: Seq<char>, i: int) -> bool {
    0 <= i < m.len() && m[i].0 == k
}

/// `m` holds the key `k`.
pub open spec fn has_key<V>(m: Seq<(Seq<char>, V)>, k: Seq<char>) -> bool {
    exists|i: int| key_at(m, k, i)
}

/// An index at which `m` holds the key `k` (the only one when keys are distinct).
pub open spec fn index_of_key<V>(m: Seq<(Seq<char>, V)>, k: Seq<char>) -> int {
    choose|i: int| key_at(m, k, i)
}

/// The value that `m` holds for the key `k`, if any.
pub open spec fn value_of<V>(m: Seq<(Seq<char>, V)>, k: Seq<char>) -> Option<V> {
    if has_key(m, k) {
        Some(m[index_of_key(m, k)].1)
    } else {
        None
    }
}

/// The option arguments stored for `k`, or none when `k` is not stored.
pub open spec fn stored_args(m: Seq<(Seq<char>, Seq<Seq<char>>)>, k: Seq<char>) -> Seq<Seq<char>> {
    match value_of(m, k) {
        Some(v) => v,
        None => Seq::empty(),
    }
}

/// `m` with the value of `k` set to `v`: in place when `k` is there, appended otherwise.
pub open spec fn put<V>(m: Seq<(Seq<char>, V)>, k: Seq<char>, v: V) -> Seq<(Seq<char>, V)> {
    if has_key(m, k) {
        m.update(index_of_key(m, k), (k, v))
    } else {
        m.push((k, v))
    }
}

/// No key occurs twice in `m`.
pub open spec fn keys_distinct<V>(m: Seq<(Seq<char>, V)>) -> bool {
    forall|i: int, j: int| 0 <= i < j < m.len() ==> m[i].0 != m[j].0
}

/// With distinct keys, the index at which a key stands is the index of that key.
pub proof fn lemma_index_of_key<V>(m: Seq<(Seq<char>, V)>, k: Seq<char>, i: int)
    requires
        keys_distinct(m),
        key_at(m, k, i),
    ensures
        has_key(m, k),
        index_of_key(m, k) == i,
        value_of(m, k) == Some(m[i].1),
{
    let j = index_of_key(m, k);
    assert(key_at(m, k, j));
    if j < i {
        assert(m[j].0 != m[i].0);
    } else if i < j {
        assert(m[i].0 != m[j].0);
    }
}

/// Putting a value keeps the keys distinct, and a read gives back what was put, while other
/// keys keep their values.
pub proof fn lemma_put<V>(m: Seq<(Seq<char>, V)>, k: Seq<char>, v: V)
    requires
        keys_distinct(m),
    ensures
        keys_distinct(put(m, k, v)),
        value_of(put(m, k, v), k) == Some(v),
        forall|k2: Seq<char>| k2 != k ==> value_of(put(m, k, v), k2) == value_of(m, k2),
        forall|k2: Seq<char>| has_key(put(m, k, v), k2) <==> (k2 == k || has_key(m, k2)),
        put(m, k, v).len() == if has_key(m, k) { m.len() } else { m.len() + 1 },
{
    let r = put(m, k, v);
    if has_key(m, k) {
        let i = index_of_key(m, k);
        assert(key_at(m, k, i));
        assert(keys_distinct(r)) by {
            assert forall|a: int, b: int| 0 <= a < b < r.len() implies r[a].0 != r[b].0 by {
                if a != i && b != i {
                    assert(m[a].0 != m[b].0);
                } else if a == i {
                    assert(m[a].0 != m[b].0);
                } else {
                    assert(m[a].0 != m[b].0);
                }
            }
        }
        assert(key_at(r, k, i));
        lemma_index_of_key(r, k, i);
        assert forall|k2: Seq<char>| k2 != k implies value_of(r, k2) == value_of(m, k2) by {
            if has_key(m, k2) {
                let j = index_of_key(m, k2);
                assert(key_at(m, k2, j));
                assert(j != i);
                assert(key_at(r, k2, j));
                lemma_index_of_key(r, k2, j);
                lemma_index_of_key(m, k2, j);
            } else {
                if has_key(r, k2) {
                    let j = index_of_key(r, k2);
                    assert(key_at(r, k2, j));
                    assert(key_at(m, k2, j));
                }
            }
        }
        assert forall|k2: Seq<char>| has_key(r, k2) <==> (k2 == k || has_key(m, k2)) by {
            if has_key(r, k2) {
                let j = index_of_key(r, k2);
                assert(key_at(r, k2, j));
                if j != i {
                    assert(key_at(m, k2, j));
                }
            }
            if has_key(m, k2) && k2 != k {
                let j = index_of_key(m, k2);
                assert(key_at(m, k2, j));
                assert(key_at(r, k2, j));
            }
            if k2 == k {
                assert(key_at(r, k2, i));
            }
        }
    } else {
        assert(keys_distinct(r)) by {
            assert forall|a: int, b: int| 0 <= a < b < r.len() implies r[a].0 != r[b].0 by {
                if b == m.len() {
                    assert(!key_at(m, k, a));
                } else {
                    assert(m[a].0 != m[b].0);
                }
            }
        }
        let last = m.len() as int;
        assert(key_at(r, k, last));
        lemma_index_of_key(r, k, last);
        assert forall|k2: Seq<char>| k2 != k implies value_of(r, k2) == value_of(m, k2) by {
            if has_key(m, k2) {
                let j = index_of_key(m, k2);
                assert(key_at(m, k2, j));
                assert(key_at(r, k2, j));
                lemma_index_of_key(r, k2, j);
                lemma_index_of_key(m, k2, j);
            } else {
                if has_key(r, k2) {
                    let j = index_of_key(r, k2);
                    assert(key_at(r, k2, j));
                    assert(key_at(m, k2, j));
                }
            }
        }
        assert forall|k2: Seq<char>| has_key(r, k2) <==> (k2 == k || has_key(m, k2)) by {
            if has_key(r, k2) {
                let j = index_of_key(r, k2);
                assert(key_at(r, k2, j));
                if j != last {
                    assert(key_at(m, k2, j));
                }
            }
            if has_key(m, k2) {
                let j = index_of_key(m, k2);
                assert(key_at(m, k2, j));
                assert(key_at(r, k2, j));
            }
        }
    }
}

/// The character sequences of stored options.
pub open spec fn opts_view(o: Seq<(String, Vec<String>)>) -> Seq<(Seq<char>, Seq<Seq<char>>)> {
    o.map_values(|p: (String, Vec<String>)| (p.0@, strings_view(p.1@)))
}

/// Finds the index of the pair whose key holds the characters of `k`.
pub fn find_key<X>(m: &Vec<(String, X)>, k: &String) -> (r: Option<usize>)
    ensures
        match r {
            Some(i) => i < m@.len() && m@[i as int].0@ == k@,
            None => forall|j: int| 0 <= j < m@.len() ==> m@[j].0@ != k@,
        },
{
    let mut i: usize = 0;
    while i < m.len()
        invariant
            i <= m@.len(),
            forall|j: int| 0 <= j < i ==> m@[j].0@ != k@,
        decreases m@.len() - i,
    {
        if m[i].0 == *k {
            return Some(i);
        }
        i = i + 1;
    }
    None
}

} // verus!
