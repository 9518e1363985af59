//! Sequences of key/value pairs whose keys are distinct, and the maps they
//! stand for: the model of the small keyed tables the library keeps in
//! vectors.
use vstd::prelude::*;

verus! {

/// Some pair of `s` has key `k`.
pub open spec fn has_key<K, V>(s: Seq<(K, V)>, k: K) -> bool {
    exists|i: int| 0 <= i < s.len() && #[trigger] s[i].0 == k
}

/// A position of `s` whose pair has key `k` (when there is one).
pub open spec fn key_index<K, V>(s: Seq<(K, V)>, k: K) -> int {
    choose|i: int| 0 <= i < s.len() && #[trigger] s[i].0 == k
}

/// No two pairs of `s` share a key.
pub open spec fn distinct_keys<K, V>(s: Seq<(K, V)>) -> bool {
    forall|i: int, j: int| 0 <= i < j < s.len() ==> #[trigger] s[i].0 != #[trigger] s[j].0
}

/// The map the pairs of `s` stand for.
pub open spec fn map_of_pairs<K, V>(s: Seq<(K, V)>) -> Map<K, V> {
    Map::new(|k: K| has_key(s, k), |k: K| s[key_index(s, k)].1)
}

/// With distinct keys, the pair at `i` is the one its key finds.
pub proof fn lemma_key_index<K, V>(s: Seq<(K, V)>, i: int)
    requires
        distinct_keys(s),
        0 <= i < s.len(),
    ensures
        has_key(s, s[i].0),
        key_index(s, s[i].0) == i,
        map_of_pairs(s).contains_key(s[i].0),
        map_of_pairs(s)[s[i].0] == s[i].1,
{
    assert(has_key(s, s[i].0));
    let j = key_index(s, s[i].0);
    if j != i {
        if j < i {
            assert(s[j].0 != s[i].0);
        } else {
            assert(s[i].0 != s[j].0);
        }
    }
}

/// Replacing the pair at `i` by one with the same key sets that key.
pub proof fn lemma_pairs_update<K, V>(s: Seq<(K, V)>, i: int, e: (K, V))
    requires
        distinct_keys(s),
        0 <= i < s.len(),
        e.0 == s[i].0,
    ensures
        distinct_keys(s.update(i, e)),
        map_of_pairs(s.update(i, e)) == map_of_pairs(s).insert(e.0, e.1),
{
    let t = s.update(i, e);
    assert(distinct_keys(t)) by {
        assert forall|a: int, b: int| 0 <= a < b < t.len() implies #[trigger] t[a].0 != #[trigger] t[b].0 by {
            assert(s[a].0 != s[b].0);
        }
    }
    assert forall|k: K| has_key(t, k) == (has_key(s, k) || k == e.0) by {
        if has_key(s, k) {
            let j = choose|j: int| 0 <= j < s.len() && #[trigger] s[j].0 == k;
            assert(t[j].0 == k);
        }
        if has_key(t, k) {
            let j = choose|j: int| 0 <= j < t.len() && #[trigger] t[j].0 == k;
            assert(s[j].0 == k);
        }
        if k == e.0 {
            assert(t[i].0 == k);
        }
    }
    assert forall|k: K| #[trigger] has_key(t, k) implies t[key_index(t, k)].1 == (if k == e.0 {
        e.1
    } else {
        s[key_index(s, k)].1
    }) by {
        let j = choose|j: int| 0 <= j < t.len() && #[trigger] t[j].0 == k;
        lemma_key_index(t, j);
        if k != e.0 {
            assert(s[j].0 == k);
            lemma_key_index(s, j);
        } else {
            lemma_key_index(t, i);
        }
    }
    assert(map_of_pairs(t) =~= map_of_pairs(s).insert(e.0, e.1));
}

/// Adding a pair with a new key sets that key.
pub proof fn lemma_pairs_push<K, V>(s: Seq<(K, V)>, e: (K, V))
    requires
        distinct_keys(s),
        !has_key(s, e.0),
    ensures
        distinct_keys(s.push(e)),
        map_of_pairs(s.push(e)) == map_of_pairs(s).insert(e.0, e.1),
{
    let t = s.push(e);
    assert(distinct_keys(t)) by {
        assert forall|a: int, b: int| 0 <= a < b < t.len() implies #[trigger] t[a].0 != #[trigger] t[b].0 by {
            if b == s.len() {
                assert(t[a] == s[a]);
            } else {
                assert(s[a].0 != s[b].0);
            }
        }
    }
    assert forall|k: K| has_key(t, k) == (has_key(s, k) || k == e.0) by {
        if has_key(s, k) {
            let j = choose|j: int| 0 <= j < s.len() && #[trigger] s[j].0 == k;
            assert(t[j].0 == k);
        }
        if has_key(t, k) {
            let j = choose|j: int| 0 <= j < t.len() && #[trigger] t[j].0 == k;
            if j < s.len() {
                assert(s[j].0 == k);
            }
        }
        if k == e.0 {
            assert(t[s.len() as int].0 == k);
        }
    }
    assert forall|k: K| #[trigger] has_key(t, k) implies t[key_index(t, k)].1 == (if k == e.0 {
        e.1
    } else {
        s[key_index(s, k)].1
    }) by {
        let j = choose|j: int| 0 <= j < t.len() && #[trigger] t[j].0 == k;
        lemma_key_index(t, j);
        if k != e.0 {
            assert(j < s.len());
            assert(s[j].0 == k);
            lemma_key_index(s, j);
        }
    }
    assert(map_of_pairs(t) =~= map_of_pairs(s).insert(e.0, e.1));
}

/// Removing the pair at `i` removes its key.
pub proof fn lemma_pairs_remove<K, V>(s: Seq<(K, V)>, i: int)
    requires
        distinct_keys(s),
        0 <= i < s.len(),
    ensures
        distinct_keys(s.remove(i)),
        map_of_pairs(s.remove(i)) == map_of_pairs(s).remove(s[i].0),
{
    let t = s.remove(i);
    let gone = s[i].0;
    assert(distinct_keys(t)) by {
        assert forall|a: int, b: int| 0 <= a < b < t.len() implies #[trigger] t[a].0 != #[trigger] t[b].0 by {
            let a2 = if a < i {
                a
            } else {
                a + 1
            };
            let b2 = if b < i {
                b
            } else {
                b + 1
            };
            assert(t[a] == s[a2] && t[b] == s[b2]);
            assert(s[a2].0 != s[b2].0);
        }
    }
    assert forall|k: K| has_key(t, k) == (has_key(s, k) && k != gone) by {
        if has_key(s, k) && k != gone {
            let j = choose|j: int| 0 <= j < s.len() && #[trigger] s[j].0 == k;
            if j < i {
                assert(t[j].0 == k);
            } else {
                assert(j != i);
                assert(t[j - 1].0 == k);
            }
        }
        if has_key(t, k) {
            let j = choose|j: int| 0 <= j < t.len() && #[trigger] t[j].0 == k;
            let j2 = if j < i {
                j
            } else {
                j + 1
            };
            assert(t[j] == s[j2]);
            assert(s[j2].0 == k);
            assert(s[i].0 != s[j2].0);
        }
    }
    assert forall|k: K| #[trigger] has_key(t, k) implies t[key_index(t, k)].1 == s[key_index(s, k)].1 by {
        let j = choose|j: int| 0 <= j < t.len() && #[trigger] t[j].0 == k;
        lemma_key_index(t, j);
        let j2 = if j < i {
            j
        } else {
            j + 1
        };
        assert(t[j] == s[j2]);
        lemma_key_index(s, j2);
    }
    assert(map_of_pairs(t) =~= map_of_pairs(s).remove(gone));
}

} // verus!
