//! Association lists viewed as maps.
//!
//! Task property maps and the task table are both kept as vectors of pairs
//! with distinct keys; their contracts speak of the corresponding
//! mathematical `Map` from key views to value views. This module defines that
//! view and proves how it changes under point updates, insertions and
//! removals of pairs.

use vstd::prelude::*;

verus! {

/// The map described by a sequence of key-value pairs; a later pair with the
/// same key view would win, though the store only ever builds sequences with
/// distinct keys.
pub open spec fn assoc_map<K: View, V: View>(s: Seq<(K, V)>) -> Map<K::V, V::V>
    decreases s.len(),
{
    if s.len() == 0 {
        Map::empty()
    } else {
        assoc_map(s.drop_last()).insert(s.last().0@, s.last().1@)
    }
}

/// Whether some pair of `s` has key view `k`.
pub open spec fn assoc_has_key<K: View, V: View>(s: Seq<(K, V)>, k: K::V) -> bool {
    exists|i: int| 0 <= i < s.len() && s[i].0@ == k
}

/// All pairs carry distinct key views.
pub open spec fn assoc_distinct<K: View, V: View>(s: Seq<(K, V)>) -> bool {
    forall|i: int, j: int| 0 <= i < j < s.len() ==> s[i].0@ != s[j].0@
}

/// A key is in the map exactly when some pair holds it.
pub proof fn lemma_assoc_map_contains<K: View, V: View>(s: Seq<(K, V)>, k: K::V)
    ensures
        assoc_map(s).contains_key(k) == assoc_has_key(s, k),
    decreases s.len(),
{
    if s.len() == 0 {
    } else {
        let d = s.drop_last();
        lemma_assoc_map_contains(d, k);
        if assoc_has_key(d, k) {
            let i = choose|i: int| 0 <= i < d.len() && d[i].0@ == k;
            assert(s[i] == d[i]);
            assert(assoc_has_key(s, k));
        }
        if k == s.last().0@ {
            assert(s[s.len() - 1].0@ == k);
            assert(assoc_has_key(s, k));
        }
        if assoc_has_key(s, k) && k != s.last().0@ {
            let i = choose|i: int| 0 <= i < s.len() && s[i].0@ == k;
            assert(i < s.len() - 1);
            assert(d[i] == s[i]);
            assert(assoc_has_key(d, k));
        }
    }
}

/// With distinct keys, the map sends each pair's key to that pair's value.
pub proof fn lemma_assoc_map_index<K: View, V: View>(s: Seq<(K, V)>, i: int)
    requires
        assoc_distinct(s),
        0 <= i < s.len(),
    ensures
        assoc_map(s).contains_key(s[i].0@),
        assoc_map(s)[s[i].0@] == s[i].1@,
    decreases s.len(),
{
    let d = s.drop_last();
    if i == s.len() - 1 {
        assert(s.last() == s[i]);
    } else {
        assert(assoc_distinct(d)) by {
            assert(forall|x: int, y: int|
                0 <= x < y < d.len() ==> d[x] == s[x] && d[y] == s[y]);
        }
        assert(d[i] == s[i]);
        lemma_assoc_map_index(d, i);
        assert(s[i].0@ != s.last().0@);
    }
}

/// Replacing the value of the pair at `i` updates the map at that pair's key.
#[verifier::rlimit(50)]
pub proof fn lemma_assoc_update_value<K: View, V: View>(s: Seq<(K, V)>, i: int, p: (K, V))
    requires
        assoc_distinct(s),
        0 <= i < s.len(),
        p.0@ == s[i].0@,
    ensures
        assoc_distinct(s.update(i, p)),
        assoc_map(s.update(i, p)) =~= assoc_map(s).insert(p.0@, p.1@),
{
    let s2 = s.update(i, p);
    assert(forall|j: int| 0 <= j < s.len() ==> s2[j].0@ == s[j].0@);
    assert(assoc_distinct(s2));
    let m1 = assoc_map(s2);
    let m2 = assoc_map(s).insert(p.0@, p.1@);
    assert forall|k: K::V| m1.contains_key(k) == m2.contains_key(k) by {
        lemma_assoc_map_contains(s2, k);
        lemma_assoc_map_contains(s, k);
        assert(assoc_has_key(s2, k) == assoc_has_key(s, k)) by {
            if assoc_has_key(s2, k) {
                let j = choose|j: int| 0 <= j < s2.len() && s2[j].0@ == k;
                assert(s[j].0@ == k);
            }
            if assoc_has_key(s, k) {
                let j = choose|j: int| 0 <= j < s.len() && s[j].0@ == k;
                assert(s2[j].0@ == k);
            }
        }
        if k == p.0@ {
            assert(assoc_has_key(s, k));
        }
    }
    assert forall|k: K::V| m1.contains_key(k) implies m1[k] == m2[k] by {
        lemma_assoc_map_contains(s2, k);
        let j = choose|j: int| 0 <= j < s2.len() && s2[j].0@ == k;
        lemma_assoc_map_index(s2, j);
        if k == p.0@ {
            assert(j == i);
            assert(m1[k] == p.1@);
        } else {
            assert(j != i);
            assert(s2[j] == s[j]);
            lemma_assoc_map_index(s, j);
        }
    }
}

/// Inserting a pair with a fresh key at any position adds it to the map.
#[verifier::rlimit(50)]
pub proof fn lemma_assoc_insert_new<K: View, V: View>(s: Seq<(K, V)>, i: int, p: (K, V))
    requires
        assoc_distinct(s),
        !assoc_has_key(s, p.0@),
        0 <= i <= s.len(),
    ensures
        assoc_distinct(s.insert(i, p)),
        assoc_map(s.insert(i, p)) =~= assoc_map(s).insert(p.0@, p.1@),
{
    let s2 = s.insert(i, p);
    s.insert_ensures(i, p);
    assert forall|x: int, y: int| 0 <= x < y < s2.len() implies s2[x].0@ != s2[y].0@ by {
        if x == i {
            assert(s2[y] == s[y - 1]);
        } else if y == i {
            assert(s2[x] == s[x]);
        } else {
            let x0: int = if x < i { x } else { x - 1 };
            let y0: int = if y < i { y } else { y - 1 };
            assert(s2[x] == s[x0]);
            assert(s2[y] == s[y0]);
        }
    }
    let m1 = assoc_map(s2);
    let m2 = assoc_map(s).insert(p.0@, p.1@);
    assert forall|k: K::V| m1.contains_key(k) == m2.contains_key(k) by {
        lemma_assoc_map_contains(s2, k);
        lemma_assoc_map_contains(s, k);
        if assoc_has_key(s2, k) {
            let j = choose|j: int| 0 <= j < s2.len() && s2[j].0@ == k;
            if j != i {
                let j0: int = if j < i { j } else { j - 1 };
                assert(s2[j] == s[j0]);
                assert(assoc_has_key(s, k));
            }
        }
        if assoc_has_key(s, k) {
            let j = choose|j: int| 0 <= j < s.len() && s[j].0@ == k;
            let j2: int = if j < i { j } else { j + 1 };
            assert(s2[j2] == s[j]);
            assert(assoc_has_key(s2, k));
        }
    }
    assert forall|k: K::V| m1.contains_key(k) implies m1[k] == m2[k] by {
        lemma_assoc_map_contains(s2, k);
        let j = choose|j: int| 0 <= j < s2.len() && s2[j].0@ == k;
        lemma_assoc_map_index(s2, j);
        if j == i {
            assert(m1[k] == p.1@);
        } else {
            let j0: int = if j < i { j } else { j - 1 };
            assert(s2[j] == s[j0]);
            lemma_assoc_map_index(s, j0);
            assert(k != p.0@);
        }
    }
}

/// Removing the pair at `i` removes its key from the map.
#[verifier::rlimit(50)]
pub proof fn lemma_assoc_remove<K: View, V: View>(s: Seq<(K, V)>, i: int)
    requires
        assoc_distinct(s),
        0 <= i < s.len(),
    ensures
        assoc_distinct(s.remove(i)),
        assoc_map(s.remove(i)) =~= assoc_map(s).remove(s[i].0@),
{
    let s2 = s.remove(i);
    s.remove_ensures(i);
    assert forall|x: int, y: int| 0 <= x < y < s2.len() implies s2[x].0@ != s2[y].0@ by {
        let x0: int = if x < i { x } else { x + 1 };
        let y0: int = if y < i { y } else { y + 1 };
        assert(s2[x] == s[x0]);
        assert(s2[y] == s[y0]);
    }
    let m1 = assoc_map(s2);
    let m2 = assoc_map(s).remove(s[i].0@);
    assert forall|k: K::V| m1.contains_key(k) == m2.contains_key(k) by {
        lemma_assoc_map_contains(s2, k);
        lemma_assoc_map_contains(s, k);
        if assoc_has_key(s2, k) {
            let j = choose|j: int| 0 <= j < s2.len() && s2[j].0@ == k;
            let j0: int = if j < i { j } else { j + 1 };
            assert(s2[j] == s[j0]);
            assert(assoc_has_key(s, k));
            assert(k != s[i].0@);
        }
        if assoc_has_key(s, k) && k != s[i].0@ {
            let j = choose|j: int| 0 <= j < s.len() && s[j].0@ == k;
            assert(j != i);
            let j2: int = if j < i { j } else { j - 1 };
            assert(s2[j2] == s[j]);
            assert(assoc_has_key(s2, k));
        }
    }
    assert forall|k: K::V| m1.contains_key(k) implies m1[k] == m2[k] by {
        lemma_assoc_map_contains(s2, k);
        let j = choose|j: int| 0 <= j < s2.len() && s2[j].0@ == k;
        lemma_assoc_map_index(s2, j);
        let j0: int = if j < i { j } else { j + 1 };
        assert(s2[j] == s[j0]);
        lemma_assoc_map_index(s, j0);
    }
}

} // verus!
