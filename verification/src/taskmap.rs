//! A task: a map from property names to property values.
//!
//! Held as a vector of pairs sorted strictly by key, so that equal maps have
//! equal representations; viewed as a `Map<Seq<char>, Seq<char>>`.

use crate::assoc::{
    assoc_distinct, assoc_has_key, assoc_map, lemma_assoc_insert_new, lemma_assoc_map_contains,
    lemma_assoc_map_index, lemma_assoc_remove, lemma_assoc_update_value,
};
use crate::strings::{lemma_lex_irreflexive, lemma_lex_total, lex_lt, str_eq, str_lt};
use vstd::prelude::*;

verus! {

/// One task's properties, sorted by name.
pub struct TaskMap {
    pub entries: Vec<(String, String)>,
}

/// Strictly ascending keys.
pub open spec fn keys_sorted(s: Seq<(String, String)>) -> bool {
    forall|i: int, j: int| 0 <= i < j < s.len() ==> lex_lt(s[i].0@, s[j].0@)
}

/// Sorted keys are distinct.
pub proof fn lemma_keys_sorted_distinct(s: Seq<(String, String)>)
    requires
        keys_sorted(s),
    ensures
        assoc_distinct(s),
{
    assert forall|i: int, j: int| 0 <= i < j < s.len() implies s[i].0@ != s[j].0@ by {
        lemma_lex_irreflexive(s[i].0@);
    }
}

/// Two pair sequences carry the same text, pair for pair.
pub open spec fn pairs_alike(a: Seq<(String, String)>, b: Seq<(String, String)>) -> bool {
    &&& a.len() == b.len()
    &&& forall|i: int| 0 <= i < a.len() ==> (#[trigger] a[i]).0@ == b[i].0@ && a[i].1@ == b[i].1@
}

/// The sorted representation is canonical: two sorted pair sequences that
/// describe the same map carry the same text, pair for pair.
#[verifier::rlimit(50)]
pub proof fn lemma_sorted_pairs_canonical(s1: Seq<(String, String)>, s2: Seq<(String, String)>)
    requires
        keys_sorted(s1),
        keys_sorted(s2),
        assoc_map(s1) == assoc_map(s2),
    ensures
        pairs_alike(s1, s2),
    decreases s1.len(),
{
    lemma_keys_sorted_distinct(s1);
    lemma_keys_sorted_distinct(s2);
    if s1.len() == 0 {
        if s2.len() > 0 {
            lemma_assoc_map_index(s2, 0);
            assert(false);
        }
    } else {
        lemma_assoc_map_index(s1, 0);
        if s2.len() == 0 {
            assert(false);
        }
        lemma_assoc_map_index(s2, 0);
        let k1 = s1[0].0@;
        let k2 = s2[0].0@;
        // each head key is the least of the shared domain, so they agree
        assert(k1 == k2) by {
            lemma_assoc_map_contains(s2, k1);
            assert(assoc_has_key(s2, k1));
            let j2 = choose|j: int| 0 <= j < s2.len() && s2[j].0@ == k1;
            lemma_assoc_map_contains(s1, k2);
            assert(assoc_has_key(s1, k2));
            let j1 = choose|j: int| 0 <= j < s1.len() && s1[j].0@ == k2;
            if j1 > 0 && j2 > 0 {
                assert(lex_lt(k1, s1[j1].0@));
                assert(lex_lt(k2, s2[j2].0@));
                crate::strings::lemma_lex_transitive(k1, k2, k1);
                lemma_lex_irreflexive(k1);
            }
        }
        assert(s1[0].1@ == s2[0].1@) by {
            assert(assoc_map(s1)[k1] == s1[0].1@);
            assert(assoc_map(s2)[k1] == s2[0].1@);
        }
        // the tails are sorted and describe the map without the head key
        let d1 = s1.drop_first();
        let d2 = s2.drop_first();
        assert(d1 =~= s1.remove(0));
        assert(d2 =~= s2.remove(0));
        lemma_assoc_remove(s1, 0);
        lemma_assoc_remove(s2, 0);
        assert(assoc_map(d1) == assoc_map(d2));
        assert(keys_sorted(d1)) by {
            assert(forall|x: int, y: int|
                0 <= x < y < d1.len() ==> d1[x] == s1[x + 1] && d1[y] == s1[y + 1]);
        }
        assert(keys_sorted(d2)) by {
            assert(forall|x: int, y: int|
                0 <= x < y < d2.len() ==> d2[x] == s2[x + 1] && d2[y] == s2[y + 1]);
        }
        lemma_sorted_pairs_canonical(d1, d2);
        assert forall|i: int| 0 <= i < s1.len() implies (#[trigger] s1[i]).0@ == s2[i].0@
            && s1[i].1@ == s2[i].1@ by {
            if i > 0 {
                assert(d1[i - 1] == s1[i]);
                assert(d2[i - 1] == s2[i]);
            }
        }
    }
}

impl View for TaskMap {
    type V = Map<Seq<char>, Seq<char>>;

    open spec fn view(&self) -> Map<Seq<char>, Seq<char>> {
        assoc_map(self.entries@)
    }
}

impl TaskMap {
    /// The representation invariant: keys strictly ascending.
    pub open spec fn wf(&self) -> bool {
        keys_sorted(self.entries@)
    }

    /// The pairs in key order, for contracts that speak of the representation.
    pub open spec fn pairs(&self) -> Seq<(String, String)> {
        self.entries@
    }

    /// A task with no properties.
    pub fn new() -> (r: TaskMap)
        ensures
            r.wf(),
            r@ =~= Map::<Seq<char>, Seq<char>>::empty(),
            r.pairs() =~= Seq::<(String, String)>::empty(),
    {
        TaskMap { entries: Vec::new() }
    }

    /// Look a property up by name.
    #[verifier::rlimit(50)]
    pub fn get(&self, property: &str) -> (r: Option<String>)
        requires
            self.wf(),
        ensures
            match r {
                Some(v) => self@.contains_key(property@) && v@ == self@[property@],
                None => !self@.contains_key(property@),
            },
    {
        let ghost s = self.entries@;
        proof {
            lemma_keys_sorted_distinct(s);
            lemma_assoc_map_contains(s, property@);
        }
        let n = self.entries.len();
        let mut i: usize = 0;
        while i < n
            invariant
                0 <= i <= n,
                n == s.len(),
                s == self.entries@,
                self.wf(),
                assoc_distinct(s),
                assoc_map(s).contains_key(property@) == assoc_has_key(s, property@),
                forall|j: int| 0 <= j < i ==> s[j].0@ != property@,
            decreases n - i,
        {
            if str_eq(self.entries[i].0.as_str(), property) {
                proof {
                    lemma_assoc_map_index(s, i as int);
                }
                return Some(self.entries[i].1.clone());
            }
            i = i + 1;
        }
        proof {
            assert(!assoc_has_key(s, property@));
        }
        None
    }

    /// Set a property, inserting or overwriting.
    #[verifier::rlimit(50)]
    pub fn set(&mut self, property: String, value: String)
        requires
            old(self).wf(),
        ensures
            final(self).wf(),
            final(self)@ =~= old(self)@.insert(property@, value@),
    {
        let ghost s = self.entries@;
        proof {
            lemma_keys_sorted_distinct(s);
        }
        let n = self.entries.len();
        let mut i: usize = 0;
        // First look for an existing entry with this name.
        while i < n
            invariant
                0 <= i <= n,
                n == s.len(),
                s == self.entries@,
                *self == *old(self),
                self.wf(),
                assoc_distinct(s),
                forall|j: int| 0 <= j < i ==> s[j].0@ != property@,
            decreases n - i,
        {
            if str_eq(self.entries[i].0.as_str(), property.as_str()) {
                proof {
                    lemma_assoc_update_value(s, i as int, (property, value));
                }
                self.entries.remove(i);
                self.entries.insert(i, (property, value));
                proof {
                    assert(self.entries@ =~= s.update(i as int, (property, value)));
                    assert(forall|j: int|
                        0 <= j < s.len() ==> self.entries@[j].0@ == s[j].0@);
                }
                return;
            }
            i = i + 1;
        }
        proof {
            assert(!assoc_has_key(s, property@));
        }
        // Not present: insert at the position that keeps keys sorted.
        let mut p: usize = 0;
        loop
            invariant
                0 <= p <= n,
                n == s.len(),
                s == self.entries@,
                *self == *old(self),
                self.wf(),
                assoc_distinct(s),
                !assoc_has_key(s, property@),
                forall|j: int| 0 <= j < p ==> !lex_lt(property@, s[j].0@),
            ensures
                0 <= p <= n,
                forall|j: int| 0 <= j < p ==> !lex_lt(property@, s[j].0@),
                p == n || lex_lt(property@, s[p as int].0@),
            decreases n - p,
        {
            if p >= n {
                break;
            }
            if str_lt(property.as_str(), self.entries[p].0.as_str()) {
                break;
            }
            p = p + 1;
        }
        proof {
            assert forall|j: int| 0 <= j < p implies lex_lt(s[j].0@, property@) by {
                lemma_lex_total(property@, s[j].0@);
                assert(s[j].0@ != property@);
            }
            assert forall|j: int| p <= j < s.len() implies lex_lt(property@, s[j].0@) by {
                if j > p {
                    assert(lex_lt(s[p as int].0@, s[j].0@));
                    crate::strings::lemma_lex_transitive(property@, s[p as int].0@, s[j].0@);
                }
            }
            lemma_assoc_insert_new(s, p as int, (property, value));
            s.insert_ensures(p as int, (property, value));
        }
        self.entries.insert(p, (property, value));
        proof {
            let s2 = self.entries@;
            assert forall|x: int, y: int| 0 <= x < y < s2.len() implies lex_lt(
                s2[x].0@,
                s2[y].0@,
            ) by {
                if x == (p as int) {
                    assert(s2[y] == s[y - 1]);
                } else if y == (p as int) {
                    assert(s2[x] == s[x]);
                } else {
                    let x0: int = if x < p { x } else { x - 1 };
                    let y0: int = if y < p { y } else { y - 1 };
                    assert(s2[x] == s[x0]);
                    assert(s2[y] == s[y0]);
                    if x0 < y0 {
                    } else {
                        assert(x0 == y0);
                        assert(x < p && y > p);
                        assert(false);
                    }
                }
            }
        }
    }

    /// Remove a property by name; absent names leave the task unchanged.
    #[verifier::rlimit(50)]
    pub fn remove(&mut self, property: &str)
        requires
            old(self).wf(),
        ensures
            final(self).wf(),
            final(self)@ =~= old(self)@.remove(property@),
    {
        let ghost s = self.entries@;
        proof {
            lemma_keys_sorted_distinct(s);
            lemma_assoc_map_contains(s, property@);
        }
        let n = self.entries.len();
        let mut i: usize = 0;
        while i < n
            invariant
                0 <= i <= n,
                n == s.len(),
                s == self.entries@,
                *self == *old(self),
                self.wf(),
                assoc_distinct(s),
                forall|j: int| 0 <= j < i ==> s[j].0@ != property@,
            decreases n - i,
        {
            if str_eq(self.entries[i].0.as_str(), property) {
                proof {
                    lemma_assoc_remove(s, i as int);
                    s.remove_ensures(i as int);
                }
                self.entries.remove(i);
                proof {
                    let s2 = self.entries@;
                    assert forall|x: int, y: int| 0 <= x < y < s2.len() implies lex_lt(
                        s2[x].0@,
                        s2[y].0@,
                    ) by {
                        let x0: int = if x < i { x } else { x + 1 };
                        let y0: int = if y < i { y } else { y + 1 };
                        assert(s2[x] == s[x0]);
                        assert(s2[y] == s[y0]);
                    }
                }
                return;
            }
            i = i + 1;
        }
        proof {
            assert(!assoc_has_key(s, property@));
            assert(self@ =~= old(self)@.remove(property@));
        }
    }

    /// A copy of the pairs in key order.
    pub fn pairs_vec(&self) -> (r: Vec<(String, String)>)
        ensures
            r@ == self.pairs(),
    {
        let n = self.entries.len();
        let mut r: Vec<(String, String)> = Vec::new();
        let mut i: usize = 0;
        while i < n
            invariant
                0 <= i <= n,
                n == self.entries@.len(),
                r@ =~= self.entries@.take(i as int),
            decreases n - i,
        {
            let p = &self.entries[i];
            r.push((p.0.clone(), p.1.clone()));
            proof {
                assert(r@ =~= self.entries@.take(i + 1));
            }
            i = i + 1;
        }
        proof {
            assert(r@ =~= self.entries@);
        }
        r
    }

}

impl Clone for TaskMap {
    /// A clone holds the same pairs, hence the same map.
    fn clone(&self) -> (res: Self)
        ensures
            res.pairs() == self.pairs(),
            res@ == self@,
            res.wf() == self.wf(),
    {
        let mut entries: Vec<(String, String)> = Vec::new();
        let n = self.entries.len();
        let mut i: usize = 0;
        while i < n
            invariant
                0 <= i <= n,
                n == self.entries@.len(),
                entries@ =~= self.entries@.take(i as int),
            decreases n - i,
        {
            let p = &self.entries[i];
            entries.push((p.0.clone(), p.1.clone()));
            proof {
                assert(entries@ =~= self.entries@.take(i + 1));
            }
            i = i + 1;
        }
        proof {
            assert(entries@ =~= self.entries@);
        }
        TaskMap { entries }
    }
}

} // verus!
