//! In-memory replica storage: the task table, the working set, the pending
//! operation log, and the base version.
//!
//! The task table is a vector of `(Uuid, TaskMap)` pairs sorted strictly by
//! UUID value, so that equal task sets have equal representations; it is
//! viewed as a `Map<Uuid, Map<Seq<char>, Seq<char>>>`. Every mutation here is
//! total: validation happens above, in the task database, so each operation
//! either applies cleanly or reports that it cannot.

use crate::assoc::{
    assoc_distinct, assoc_has_key, assoc_map, lemma_assoc_insert_new, lemma_assoc_map_contains,
    lemma_assoc_map_index, lemma_assoc_remove, lemma_assoc_update_value,
};
use crate::taskmap::{lemma_sorted_pairs_canonical, pairs_alike, TaskMap};
use crate::types::{Operation, Uuid};
use vstd::prelude::*;

verus! {

/// The whole state one replica persists.
pub struct InMemoryStorage {
    pub tasks: Vec<(Uuid, TaskMap)>,
    pub working_set: Vec<Option<Uuid>>,
    pub operations: Vec<Operation>,
    pub base_version: u64,
}

/// Strictly ascending UUID values.
pub open spec fn uuids_sorted(s: Seq<(Uuid, TaskMap)>) -> bool {
    forall|i: int, j: int| 0 <= i < j < s.len() ==> s[i].0.v < s[j].0.v
}

/// The sorted task table is canonical: two sorted tables of well-formed
/// tasks that describe the same task set list the same UUIDs with the same
/// property text, entry for entry.
#[verifier::rlimit(50)]
pub proof fn lemma_sorted_tasks_canonical(s1: Seq<(Uuid, TaskMap)>, s2: Seq<(Uuid, TaskMap)>)
    requires
        uuids_sorted(s1),
        uuids_sorted(s2),
        forall|i: int| 0 <= i < s1.len() ==> (#[trigger] s1[i]).1.wf(),
        forall|i: int| 0 <= i < s2.len() ==> (#[trigger] s2[i]).1.wf(),
        assoc_map(s1) == assoc_map(s2),
    ensures
        s1.len() == s2.len(),
        forall|i: int| 0 <= i < s1.len() ==> (#[trigger] s1[i]).0 == s2[i].0 && pairs_alike(
            s1[i].1.pairs(),
            s2[i].1.pairs(),
        ),
    decreases s1.len(),
{
    assert(assoc_distinct(s1));
    assert(assoc_distinct(s2));
    if s1.len() == 0 {
        if s2.len() > 0 {
            lemma_assoc_map_index(s2, 0);
            assert(false);
        }
    } else {
        lemma_assoc_map_index(s1, 0);
        if s2.len() == 0 {
            assert(false);
        }
        lemma_assoc_map_index(s2, 0);
        let k1 = s1[0].0;
        let k2 = s2[0].0;
        // each head UUID is the least of the shared domain, so they agree
        assert(k1 == k2) by {
            lemma_assoc_map_contains(s2, k1);
            assert(assoc_has_key(s2, k1));
            let j2 = choose|j: int| 0 <= j < s2.len() && s2[j].0@ == k1;
            lemma_assoc_map_contains(s1, k2);
            assert(assoc_has_key(s1, k2));
            let j1 = choose|j: int| 0 <= j < s1.len() && s1[j].0@ == k2;
            if j1 > 0 && j2 > 0 {
                assert(k1.v < s1[j1].0.v);
                assert(k2.v < s2[j2].0.v);
            }
        }
        assert(s1[0].1@ == s2[0].1@) by {
            assert(assoc_map(s1)[k1] == s1[0].1@);
            assert(assoc_map(s2)[k1] == s2[0].1@);
        }
        lemma_sorted_pairs_canonical(s1[0].1.pairs(), s2[0].1.pairs());
        // the tails are sorted and describe the task set without the head
        let d1 = s1.drop_first();
        let d2 = s2.drop_first();
        assert(d1 =~= s1.remove(0));
        assert(d2 =~= s2.remove(0));
        lemma_assoc_remove(s1, 0);
        lemma_assoc_remove(s2, 0);
        assert(assoc_map(d1) == assoc_map(d2));
        assert(forall|x: int, y: int|
            0 <= x < y < d1.len() ==> d1[x] == s1[x + 1] && d1[y] == s1[y + 1]);
        assert(forall|x: int, y: int|
            0 <= x < y < d2.len() ==> d2[x] == s2[x + 1] && d2[y] == s2[y + 1]);
        assert(forall|x: int| 0 <= x < d1.len() ==> d1[x] == s1[x + 1]);
        assert(forall|x: int| 0 <= x < d2.len() ==> d2[x] == s2[x + 1]);
        lemma_sorted_tasks_canonical(d1, d2);
        assert forall|i: int| 0 <= i < s1.len() implies (#[trigger] s1[i]).0 == s2[i].0
            && pairs_alike(s1[i].1.pairs(), s2[i].1.pairs()) by {
            if i > 0 {
                assert(d1[i - 1] == s1[i]);
                assert(d2[i - 1] == s2[i]);
            }
        }
    }
}

impl InMemoryStorage {
    /// Representation invariant: tasks sorted by UUID, each task well formed,
    /// and the working set keeping its conventionally empty slot 0.
    pub open spec fn wf(&self) -> bool {
        &&& uuids_sorted(self.tasks@)
        &&& forall|i: int| 0 <= i < self.tasks@.len() ==> (#[trigger] self.tasks@[i]).1.wf()
        &&& self.working_set@.len() >= 1
        &&& self.working_set@[0] is None
    }

    /// The task table as a map from UUID to property map.
    pub open spec fn tasks_view(&self) -> Map<Uuid, Map<Seq<char>, Seq<char>>> {
        assoc_map(self.tasks@)
    }

    /// A fresh, empty replica state.
    pub fn new() -> (r: InMemoryStorage)
        ensures
            r.wf(),
            r.tasks_view() =~= Map::<Uuid, Map<Seq<char>, Seq<char>>>::empty(),
            r.tasks@.len() == 0,
            r.working_set@ =~= seq![Option::<Uuid>::None],
            r.operations@ =~= Seq::<Operation>::empty(),
            r.base_version == 0,
    {
        InMemoryStorage {
            tasks: Vec::new(),
            working_set: vec![None],
            operations: Vec::new(),
            base_version: 0,
        }
    }

    proof fn lemma_tasks_distinct(&self)
        requires
            self.wf(),
        ensures
            assoc_distinct(self.tasks@),
    {
    }

    /// Create an empty task under `uuid`; reports `false` and does nothing if
    /// the UUID is already taken.
    #[verifier::rlimit(50)]
    pub fn create_task(&mut self, uuid: Uuid) -> (r: bool)
        requires
            old(self).wf(),
        ensures
            final(self).wf(),
            r == !old(self).tasks_view().contains_key(uuid),
            r ==> final(self).tasks_view() =~= old(self).tasks_view().insert(
                uuid,
                Map::<Seq<char>, Seq<char>>::empty(),
            ),
            !r ==> *final(self) == *old(self),
            final(self).working_set@ == old(self).working_set@,
            final(self).operations@ == old(self).operations@,
            final(self).base_version == old(self).base_version,
    {
        let ghost s = self.tasks@;
        proof {
            self.lemma_tasks_distinct();
            lemma_assoc_map_contains(s, uuid);
        }
        let n = self.tasks.len();
        let mut p: usize = 0;
        loop
            invariant
                0 <= p <= n,
                n == s.len(),
                s == self.tasks@,
                *self == *old(self),
                self.wf(),
                forall|j: int| 0 <= j < p ==> s[j].0.v < uuid.v,
            ensures
                0 <= p <= n,
                s == self.tasks@,
                *self == *old(self),
                forall|j: int| 0 <= j < p ==> s[j].0.v < uuid.v,
                p == n || s[p as int].0.v >= uuid.v,
            decreases n - p,
        {
            if p >= n {
                break;
            }
            if self.tasks[p].0.v >= uuid.v {
                break;
            }
            p = p + 1;
        }
        if p < n && self.tasks[p].0.v == uuid.v {
            proof {
                lemma_assoc_map_contains(s, uuid);
                assert(s[p as int].0 == uuid);
                assert(assoc_has_key(s, uuid));
            }
            return false;
        }
        proof {
            assert forall|j: int| 0 <= j < s.len() implies s[j].0 != uuid by {
                if j < p {
                } else if j == p {
                } else {
                    assert(s[p as int].0.v < s[j].0.v);
                }
            }
            lemma_assoc_map_contains(s, uuid);
            assert(!assoc_has_key(s, uuid));
        }
        let fresh = TaskMap::new();
        proof {
            lemma_assoc_insert_new(s, p as int, (uuid, fresh));
            s.insert_ensures(p as int, (uuid, fresh));
        }
        self.tasks.insert(p, (uuid, fresh));
        proof {
            let s2 = self.tasks@;
            assert forall|x: int, y: int| 0 <= x < y < s2.len() implies s2[x].0.v < s2[y].0.v by {
                if x == (p as int) {
                    assert(s2[y] == s[y - 1]);
                } else if y == (p as int) {
                    assert(s2[x] == s[x]);
                } else {
                    let x0: int = if x < p { x } else { x - 1 };
                    let y0: int = if y < p { y } else { y - 1 };
                    assert(s2[x] == s[x0]);
                    assert(s2[y] == s[y0]);
                    assert(x0 < y0);
                }
            }
            assert(forall|i: int|
                0 <= i < s2.len() ==> (#[trigger] s2[i]).1.wf());
        }
        true
    }

    /// Remove the task under `uuid` wholesale; reports `false` and does
    /// nothing if it is absent.
    #[verifier::rlimit(50)]
    pub fn delete_task(&mut self, uuid: &Uuid) -> (r: bool)
        requires
            old(self).wf(),
        ensures
            final(self).wf(),
            r == old(self).tasks_view().contains_key(*uuid),
            r ==> final(self).tasks_view() =~= old(self).tasks_view().remove(*uuid),
            !r ==> *final(self) == *old(self),
            final(self).working_set@ == old(self).working_set@,
            final(self).operations@ == old(self).operations@,
            final(self).base_version == old(self).base_version,
    {
        let ghost s = self.tasks@;
        proof {
            self.lemma_tasks_distinct();
            lemma_assoc_map_contains(s, *uuid);
        }
        let n = self.tasks.len();
        let mut i: usize = 0;
        while i < n
            invariant
                0 <= i <= n,
                n == s.len(),
                s == self.tasks@,
                *self == *old(self),
                self.wf(),
                forall|j: int| 0 <= j < i ==> s[j].0 != *uuid,
            decreases n - i,
        {
            if self.tasks[i].0.v == uuid.v {
                proof {
                    self.lemma_tasks_distinct();
                    lemma_assoc_map_contains(s, *uuid);
                    assert(s[i as int].0 == *uuid);
                    lemma_assoc_remove(s, i as int);
                    s.remove_ensures(i as int);
                }
                self.tasks.remove(i);
                proof {
                    let s2 = self.tasks@;
                    assert forall|x: int, y: int| 0 <= x < y < s2.len() implies s2[x].0.v
                        < s2[y].0.v by {
                        let x0: int = if x < i { x } else { x + 1 };
                        let y0: int = if y < i { y } else { y + 1 };
                        assert(s2[x] == s[x0]);
                        assert(s2[y] == s[y0]);
                    }
                    assert(forall|k: int|
                        0 <= k < s2.len() ==> (#[trigger] s2[k]).1.wf());
                    assert(assoc_has_key(s, *uuid));
                }
                return true;
            }
            i = i + 1;
        }
        proof {
            lemma_assoc_map_contains(s, *uuid);
            assert(!assoc_has_key(s, *uuid));
        }
        false
    }

    /// Fetch a copy of the task under `uuid`.
    #[verifier::rlimit(50)]
    pub fn get_task(&self, uuid: &Uuid) -> (r: Option<TaskMap>)
        requires
            self.wf(),
        ensures
            match r {
                Some(t) => {
                    &&& self.tasks_view().contains_key(*uuid)
                    &&& t@ == self.tasks_view()[*uuid]
                    &&& t.wf()
                },
                None => !self.tasks_view().contains_key(*uuid),
            },
    {
        let ghost s = self.tasks@;
        proof {
            self.lemma_tasks_distinct();
            lemma_assoc_map_contains(s, *uuid);
        }
        let n = self.tasks.len();
        let mut i: usize = 0;
        while i < n
            invariant
                0 <= i <= n,
                n == s.len(),
                s == self.tasks@,
                self.wf(),
                forall|j: int| 0 <= j < i ==> s[j].0 != *uuid,
            decreases n - i,
        {
            if self.tasks[i].0.v == uuid.v {
                proof {
                    self.lemma_tasks_distinct();
                    lemma_assoc_map_contains(s, *uuid);
                    assert(s[i as int].0 == *uuid);
                    lemma_assoc_map_index(s, i as int);
                }
                return Some(self.tasks[i].1.clone());
            }
            i = i + 1;
        }
        proof {
            lemma_assoc_map_contains(s, *uuid);
            assert(!assoc_has_key(s, *uuid));
        }
        None
    }

    /// Store `task` under `uuid`, creating or replacing it.
    #[verifier::rlimit(50)]
    pub fn set_task(&mut self, uuid: Uuid, task: TaskMap)
        requires
            old(self).wf(),
            task.wf(),
        ensures
            final(self).wf(),
            final(self).tasks_view() =~= old(self).tasks_view().insert(uuid, task@),
            final(self).working_set@ == old(self).working_set@,
            final(self).operations@ == old(self).operations@,
            final(self).base_version == old(self).base_version,
    {
        let ghost s = self.tasks@;
        proof {
            self.lemma_tasks_distinct();
        }
        let n = self.tasks.len();
        let mut p: usize = 0;
        loop
            invariant
                0 <= p <= n,
                n == s.len(),
                s == self.tasks@,
                *self == *old(self),
                self.wf(),
                forall|j: int| 0 <= j < p ==> s[j].0.v < uuid.v,
            ensures
                0 <= p <= n,
                s == self.tasks@,
                *self == *old(self),
                forall|j: int| 0 <= j < p ==> s[j].0.v < uuid.v,
                p == n || s[p as int].0.v >= uuid.v,
            decreases n - p,
        {
            if p >= n {
                break;
            }
            if self.tasks[p].0.v >= uuid.v {
                break;
            }
            p = p + 1;
        }
        if p < n && self.tasks[p].0.v == uuid.v {
            proof {
                assert(s[p as int].0 == uuid);
                lemma_assoc_update_value(s, p as int, (uuid, task));
            }
            self.tasks.remove(p);
            self.tasks.insert(p, (uuid, task));
            proof {
                assert(self.tasks@ =~= s.update(p as int, (uuid, task)));
                let s2 = self.tasks@;
                assert(forall|j: int| 0 <= j < s2.len() ==> (#[trigger] s2[j]).0 == s[j].0);
                assert(forall|x: int, y: int|
                    0 <= x < y < s2.len() ==> s2[x].0.v < s2[y].0.v);
                assert(forall|k: int| 0 <= k < s2.len() ==> (#[trigger] s2[k]).1.wf());
            }
        } else {
            proof {
                assert forall|j: int| 0 <= j < s.len() implies s[j].0 != uuid by {
                    if j > p {
                        assert(s[p as int].0.v < s[j].0.v);
                    }
                }
                assert(!assoc_has_key(s, uuid));
                lemma_assoc_insert_new(s, p as int, (uuid, task));
                s.insert_ensures(p as int, (uuid, task));
            }
            self.tasks.insert(p, (uuid, task));
            proof {
                let s2 = self.tasks@;
                assert forall|x: int, y: int| 0 <= x < y < s2.len() implies s2[x].0.v
                    < s2[y].0.v by {
                    if x == (p as int) {
                        assert(s2[y] == s[y - 1]);
                    } else if y == (p as int) {
                        assert(s2[x] == s[x]);
                    } else {
                        let x0: int = if x < p { x } else { x - 1 };
                        let y0: int = if y < p { y } else { y - 1 };
                        assert(s2[x] == s[x0]);
                        assert(s2[y] == s[y0]);
                        assert(x0 < y0);
                    }
                }
                assert(forall|k: int| 0 <= k < s2.len() ==> (#[trigger] s2[k]).1.wf());
            }
        }
    }

    /// A copy of the whole task table, in UUID order.
    #[verifier::rlimit(50)]
    pub fn all_tasks(&self) -> (r: Vec<(Uuid, TaskMap)>)
        requires
            self.wf(),
        ensures
            r@.len() == self.tasks@.len(),
            forall|i: int| 0 <= i < r@.len() ==> (#[trigger] r@[i]).0 == self.tasks@[i].0,
            forall|i: int| 0 <= i < r@.len() ==> (#[trigger] r@[i]).1@ == self.tasks@[i].1@,
            forall|i: int| 0 <= i < r@.len() ==> (#[trigger] r@[i]).1.pairs()
                == self.tasks@[i].1.pairs(),
            forall|i: int| 0 <= i < r@.len() ==> (#[trigger] r@[i]).1.wf(),
    {
        let n = self.tasks.len();
        let mut r: Vec<(Uuid, TaskMap)> = Vec::new();
        let mut i: usize = 0;
        while i < n
            invariant
                0 <= i <= n,
                n == self.tasks@.len(),
                self.wf(),
                r@.len() == i,
                forall|j: int| 0 <= j < i ==> (#[trigger] r@[j]).0 == self.tasks@[j].0,
                forall|j: int| 0 <= j < i ==> (#[trigger] r@[j]).1@ == self.tasks@[j].1@,
                forall|j: int| 0 <= j < i ==> (#[trigger] r@[j]).1.pairs()
                    == self.tasks@[j].1.pairs(),
                forall|j: int| 0 <= j < i ==> (#[trigger] r@[j]).1.wf(),
            decreases n - i,
        {
            let p = &self.tasks[i];
            r.push((p.0, p.1.clone()));
            i = i + 1;
        }
        r
    }

    /// The UUIDs of all tasks, in UUID order.
    pub fn all_task_uuids(&self) -> (r: Vec<Uuid>)
        ensures
            r@.len() == self.tasks@.len(),
            forall|i: int| 0 <= i < r@.len() ==> r@[i] == self.tasks@[i].0,
    {
        let n = self.tasks.len();
        let mut r: Vec<Uuid> = Vec::new();
        let mut i: usize = 0;
        while i < n
            invariant
                0 <= i <= n,
                n == self.tasks@.len(),
                r@.len() == i,
                forall|j: int| 0 <= j < i ==> r@[j] == self.tasks@[j].0,
            decreases n - i,
        {
            r.push(self.tasks[i].0);
            i = i + 1;
        }
        r
    }

    /// A copy of the working set.
    pub fn get_working_set(&self) -> (r: Vec<Option<Uuid>>)
        ensures
            r@ == self.working_set@,
    {
        let n = self.working_set.len();
        let mut r: Vec<Option<Uuid>> = Vec::new();
        let mut i: usize = 0;
        while i < n
            invariant
                0 <= i <= n,
                n == self.working_set@.len(),
                r@ =~= self.working_set@.take(i as int),
            decreases n - i,
        {
            r.push(self.working_set[i]);
            proof {
                assert(r@ =~= self.working_set@.take(i + 1));
            }
            i = i + 1;
        }
        proof {
            assert(r@ =~= self.working_set@);
        }
        r
    }

    /// Reset the working set to just the empty slot 0.
    pub fn clear_working_set(&mut self)
        ensures
            final(self).working_set@ =~= seq![Option::<Uuid>::None],
            final(self).tasks@ == old(self).tasks@,
            final(self).operations@ == old(self).operations@,
            final(self).base_version == old(self).base_version,
    {
        self.working_set = vec![None];
    }

    /// Append a new slot holding `uuid` and return its index.
    pub fn add_to_working_set(&mut self, uuid: &Uuid) -> (r: u64)
        ensures
            final(self).working_set@ == old(self).working_set@.push(Some(*uuid)),
            r == old(self).working_set@.len(),
            final(self).tasks@ == old(self).tasks@,
            final(self).operations@ == old(self).operations@,
            final(self).base_version == old(self).base_version,
    {
        let i = self.working_set.len();
        self.working_set.push(Some(*uuid));
        i as u64
    }

    /// A copy of the pending operation log.
    pub fn operations(&self) -> (r: Vec<Operation>)
        ensures
            r@ == self.operations@,
    {
        let n = self.operations.len();
        let mut r: Vec<Operation> = Vec::new();
        let mut i: usize = 0;
        while i < n
            invariant
                0 <= i <= n,
                n == self.operations@.len(),
                r@ =~= self.operations@.take(i as int),
            decreases n - i,
        {
            r.push(self.operations[i].clone());
            proof {
                assert(r@ =~= self.operations@.take(i + 1));
            }
            i = i + 1;
        }
        proof {
            assert(r@ =~= self.operations@);
        }
        r
    }

    /// Append one operation to the pending log.
    pub fn add_operation(&mut self, op: Operation)
        ensures
            final(self).operations@ == old(self).operations@.push(op),
            final(self).tasks@ == old(self).tasks@,
            final(self).working_set@ == old(self).working_set@,
            final(self).base_version == old(self).base_version,
    {
        self.operations.push(op);
    }

    /// Replace the pending log wholesale.
    pub fn set_operations(&mut self, ops: Vec<Operation>)
        ensures
            final(self).operations@ == ops@,
            final(self).tasks@ == old(self).tasks@,
            final(self).working_set@ == old(self).working_set@,
            final(self).base_version == old(self).base_version,
    {
        self.operations = ops;
    }

    /// The last server version merged into this replica.
    pub fn base_version(&self) -> (r: u64)
        ensures
            r == self.base_version,
    {
        self.base_version
    }

    /// Advance the sync cursor.
    pub fn set_base_version(&mut self, v: u64)
        ensures
            final(self).base_version == v,
            final(self).tasks@ == old(self).tasks@,
            final(self).working_set@ == old(self).working_set@,
            final(self).operations@ == old(self).operations@,
    {
        self.base_version = v;
    }
}

} // verus!
