//! Looking things up in sequences: the first position of a value, and lists
//! of key and value read as maps in which the first entry of a key counts.

use vstd::prelude::*;

verus! {

/// The first position of `x` in `s`, if it occurs.
pub open spec fn index_of<T>(s: Seq<T>, x: T) -> Option<int>
    decreases s.len(),
{
    if s.len() == 0 {
        None
    } else if s[0] == x {
        Some(0)
    } else {
        match index_of(s.skip(1), x) {
            Some(i) => Some(i + 1),
            None => None,
        }
    }
}

/// `index_of` gives the least position that holds `x`, and `None` only when
/// `x` does not occur.
pub proof fn lemma_index_of<T>(s: Seq<T>, x: T)
    ensures
        match index_of(s, x) {
            Some(i) => 0 <= i < s.len() && s[i] == x && forall|j: int| 0 <= j < i ==> s[j] != x,
            None => forall|j: int| 0 <= j < s.len() ==> s[j] != x,
        },
    decreases s.len(),
{
    if s.len() > 0 && s[0] != x {
        lemma_index_of(s.skip(1), x);
        match index_of(s.skip(1), x) {
            Some(i) => {
                assert forall|j: int| 0 <= j < i + 1 implies s[j] != x by {
                    if j > 0 {
                        assert(s.skip(1)[j - 1] == s[j]);
                    }
                }
            },
            None => {
                assert forall|j: int| 0 <= j < s.len() implies s[j] != x by {
                    if j > 0 {
                        assert(s.skip(1)[j - 1] == s[j]);
                    }
                }
            },
        }
    }
}

/// A position that holds `x` with no `x` before it is the one `index_of` finds.
pub proof fn lemma_index_of_is<T>(s: Seq<T>, x: T, i: int)
    requires
        0 <= i < s.len(),
        s[i] == x,
        forall|j: int| 0 <= j < i ==> s[j] != x,
    ensures
        index_of(s, x) == Some(i),
{
    lemma_index_of(s, x);
}

/// No position holds `x`: `index_of` finds none.
pub proof fn lemma_index_of_none<T>(s: Seq<T>, x: T)
    requires
        forall|j: int| 0 <= j < s.len() ==> s[j] != x,
    ensures
        index_of(s, x) is None,
{
    lemma_index_of(s, x);
}

/// The keys of a list of pairs, in order.
pub open spec fn keys_of<K, V>(s: Seq<(K, V)>) -> Seq<K> {
    Seq::new(s.len(), |i: int| s[i].0)
}

/// The value of the first pair of `s` whose key is `k`.
pub open spec fn value_of<K, V>(s: Seq<(K, V)>, k: K) -> Option<V> {
    match index_of(keys_of(s), k) {
        Some(i) => Some(s[i].1),
        None => None,
    }
}

/// The map that a list of pairs stands for: each key that occurs, with the
/// value of its first pair.
pub open spec fn map_of<K, V>(s: Seq<(K, V)>) -> Map<K, V> {
    Map::new(|k: K| value_of(s, k) is Some, |k: K| value_of(s, k).unwrap())
}

/// Replacing the value of the first pair of a key, or adding a pair for a key
/// that has none, puts that key and value into the map and changes nothing else.
pub proof fn lemma_map_of_put<K, V>(s: Seq<(K, V)>, k: K, v: V)
    ensures
        match index_of(keys_of(s), k) {
            Some(i) => map_of(s.update(i, (k, v))) == map_of(s).insert(k, v),
            None => map_of(s.push((k, v))) == map_of(s).insert(k, v),
        },
{
    lemma_index_of(keys_of(s), k);
    match index_of(keys_of(s), k) {
        Some(i) => {
            let t = s.update(i, (k, v));
            assert(keys_of(t) =~= keys_of(s));
            assert forall|k2: K| value_of(t, k2) == (if k2 == k {
                Some(v)
            } else {
                value_of(s, k2)
            }) by {
                lemma_index_of(keys_of(s), k2);
            }
            assert(map_of(t) =~= map_of(s).insert(k, v));
        },
        None => {
            let t = s.push((k, v));
            assert forall|k2: K| value_of(t, k2) == (if k2 == k {
                Some(v)
            } else {
                value_of(s, k2)
            }) by {
                lemma_index_of(keys_of(s), k2);
                match index_of(keys_of(s), k2) {
                    Some(j) => {
                        assert forall|m: int| 0 <= m < j implies keys_of(t)[m] != k2 by {
                            assert(keys_of(s)[m] != k2);
                        }
                        lemma_index_of_is(keys_of(t), k2, j);
                    },
                    None => {
                        if k2 == k {
                            assert forall|m: int| 0 <= m < s.len() implies keys_of(t)[m] != k2 by {
                                assert(keys_of(s)[m] != k2);
                            }
                            lemma_index_of_is(keys_of(t), k2, s.len() as int);
                        } else {
                            assert forall|m: int| 0 <= m < t.len() implies keys_of(t)[m] != k2 by {
                                if m < s.len() {
                                    assert(keys_of(s)[m] != k2);
                                }
                            }
                            lemma_index_of_none(keys_of(t), k2);
                        }
                    },
                }
            }
            assert(map_of(t) =~= map_of(s).insert(k, v));
        },
    }
}

/// Taking out the pair at `i` changes the value of no key but that pair's.
pub proof fn lemma_value_of_remove<K, V>(s: Seq<(K, V)>, i: int, k: K)
    requires
        0 <= i < s.len(),
        s[i].0 != k,
    ensures
        value_of(s.remove(i), k) == value_of(s, k),
{
    let t = s.remove(i);
    lemma_index_of(keys_of(s), k);
    match index_of(keys_of(s), k) {
        Some(j) => {
            let j2 = if j < i {
                j
            } else {
                j - 1
            };
            assert(keys_of(t)[j2] == k);
            assert forall|m: int| 0 <= m < j2 implies keys_of(t)[m] != k by {
                if m < i {
                    assert(keys_of(s)[m] != k);
                } else {
                    assert(keys_of(s)[m + 1] != k);
                }
            }
            lemma_index_of_is(keys_of(t), k, j2);
        },
        None => {
            assert forall|m: int| 0 <= m < t.len() implies keys_of(t)[m] != k by {
                if m < i {
                    assert(keys_of(s)[m] != k);
                } else {
                    assert(keys_of(s)[m + 1] != k);
                }
            }
            lemma_index_of_none(keys_of(t), k);
        },
    }
}

} // verus!
