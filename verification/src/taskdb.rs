//! The task database: validated mutation, working-set maintenance, and
//! synchronization against the server's version log.

use crate::model::{
    apply_op_tasks, apply_opt, apply_server_op, apply_version_ops, catch_up, op_valid, sync_spec,
    transform_fold, transform_spec, TasksView,
};
use crate::server::{Server, Version, VersionAdd};
use crate::storage::InMemoryStorage;
use crate::taskmap::TaskMap;
use crate::transform::transform;
use crate::types::{Error, Operation, Uuid};
use vstd::prelude::*;

verus! {

/// A replica's database, over its storage.
pub struct TaskDB {
    pub storage: InMemoryStorage,
}

/// Which error a rejected operation reports.
pub open spec fn op_error(op: Operation) -> Error {
    match op {
        Operation::Create { uuid } => Error::CreateExists { uuid },
        Operation::Delete { uuid } => Error::DoesNotExist { uuid },
        Operation::Update { uuid, .. } => Error::DoesNotExist { uuid },
    }
}

/// The position of the first slot holding `u`, or `-1` if none does.
pub open spec fn ws_index_of(ws: Seq<Option<Uuid>>, u: Uuid) -> int
    decreases ws.len(),
{
    if ws.len() == 0 {
        -1
    } else if ws[0] == Some(u) {
        0
    } else {
        let r = ws_index_of(ws.drop_first(), u);
        if r < 0 {
            -1
        } else {
            r + 1
        }
    }
}

/// What adding `u` to the working set yields: the new working set and the
/// index handed back.
pub open spec fn add_ws(ws: Seq<Option<Uuid>>, u: Uuid) -> (Seq<Option<Uuid>>, int) {
    let i = ws_index_of(ws, u);
    if i >= 0 {
        (ws, i)
    } else {
        (ws.push(Some(u)), ws.len() as int)
    }
}

/// `ws_index_of` finds exactly the first occurrence.
pub proof fn lemma_ws_index_of(ws: Seq<Option<Uuid>>, u: Uuid)
    ensures
        ws_index_of(ws, u) == -1 || 0 <= ws_index_of(ws, u) < ws.len(),
        ws_index_of(ws, u) == -1 ==> forall|j: int| 0 <= j < ws.len() ==> ws[j] != Some(u),
        ws_index_of(ws, u) >= 0 ==> {
            &&& 0 <= ws_index_of(ws, u) < ws.len()
            &&& ws[ws_index_of(ws, u)] == Some(u)
            &&& forall|j: int| 0 <= j < ws_index_of(ws, u) ==> ws[j] != Some(u)
        },
    decreases ws.len(),
{
    if ws.len() > 0 && ws[0] != Some(u) {
        lemma_ws_index_of(ws.drop_first(), u);
        let r = ws_index_of(ws.drop_first(), u);
        if r == -1 {
            assert forall|j: int| 0 <= j < ws.len() implies ws[j] != Some(u) by {
                if j > 0 {
                    assert(ws.drop_first()[j - 1] == ws[j]);
                }
            }
        } else {
            assert(ws.drop_first()[r] == ws[r + 1]);
            assert forall|j: int| 0 <= j < r + 1 implies ws[j] != Some(u) by {
                if j > 0 {
                    assert(ws.drop_first()[j - 1] == ws[j]);
                }
            }
        }
    }
}

/// A yes-or-no question about one task, asked when the working set is
/// rebuilt; `check` must answer exactly as the specification `matches` does.
pub trait TaskFilter {
    spec fn matches(&self, t: Map<Seq<char>, Seq<char>>) -> bool;

    fn check(&self, t: &TaskMap) -> (r: bool)
        requires
            t.wf(),
        ensures
            r == self.matches(t@),
    ;
}

/// The filter used in practice: the task holds `value` under `property`.
pub struct PropertyEquals {
    pub property: String,
    pub value: String,
}

impl TaskFilter for PropertyEquals {
    open spec fn matches(&self, t: Map<Seq<char>, Seq<char>>) -> bool {
        t.contains_key(self.property@) && t[self.property@] == self.value@
    }

    fn check(&self, t: &TaskMap) -> (r: bool) {
        match t.get(self.property.as_str()) {
            Some(v) => crate::strings::str_eq(v.as_str(), self.value.as_str()),
            None => false,
        }
    }
}

/// The slots of the old working set that still qualify, in their old order:
/// occupied, naming a live task, and accepted by the filter.
pub open spec fn kept_entries<F: TaskFilter>(
    ws: Seq<Option<Uuid>>,
    t: TasksView,
    f: &F,
) -> Seq<Uuid>
    decreases ws.len(),
{
    if ws.len() == 0 {
        Seq::empty()
    } else {
        let head = match ws[0] {
            Some(u) => if t.contains_key(u) && f.matches(t[u]) {
                seq![u]
            } else {
                Seq::<Uuid>::empty()
            },
            None => Seq::<Uuid>::empty(),
        };
        head + kept_entries(ws.drop_first(), t, f)
    }
}

/// The tasks that qualify but were not kept already, in table order.
pub open spec fn added_entries<F: TaskFilter>(
    entries: Seq<(Uuid, TaskMap)>,
    seen: Seq<Uuid>,
    f: &F,
) -> Seq<Uuid>
    decreases entries.len(),
{
    if entries.len() == 0 {
        Seq::empty()
    } else {
        let e = entries[0];
        let head = if !seen.contains(e.0) && f.matches(e.1@) {
            seq![e.0]
        } else {
            Seq::<Uuid>::empty()
        };
        head + added_entries(entries.drop_first(), seen, f)
    }
}

/// `kept_entries` over a longer prefix extends the shorter one.
proof fn lemma_kept_push<F: TaskFilter>(ws: Seq<Option<Uuid>>, x: Option<Uuid>, t: TasksView, f: &F)
    ensures
        kept_entries(ws.push(x), t, f) == kept_entries(ws, t, f) + (match x {
            Some(u) => if t.contains_key(u) && f.matches(t[u]) {
                seq![u]
            } else {
                Seq::<Uuid>::empty()
            },
            None => Seq::<Uuid>::empty(),
        }),
    decreases ws.len(),
{
    let tail = (match x {
        Some(u) => if t.contains_key(u) && f.matches(t[u]) {
            seq![u]
        } else {
            Seq::<Uuid>::empty()
        },
        None => Seq::<Uuid>::empty(),
    });
    if ws.len() == 0 {
        assert(ws.push(x)[0] == x);
        assert(ws.push(x).drop_first() =~= Seq::<Option<Uuid>>::empty());
        assert(kept_entries(ws.push(x).drop_first(), t, f) =~= Seq::<Uuid>::empty());
        assert(kept_entries(ws.push(x), t, f) =~= tail);
        assert(kept_entries(ws, t, f) + tail =~= tail);
    } else {
        assert(ws.push(x)[0] == ws[0]);
        assert(ws.push(x).drop_first() =~= ws.drop_first().push(x));
        lemma_kept_push(ws.drop_first(), x, t, f);
        assert(kept_entries(ws.push(x), t, f) =~= kept_entries(ws, t, f) + tail);
    }
}

/// `added_entries` over a longer prefix extends the shorter one.
proof fn lemma_added_push<F: TaskFilter>(
    entries: Seq<(Uuid, TaskMap)>,
    e: (Uuid, TaskMap),
    seen: Seq<Uuid>,
    f: &F,
)
    ensures
        added_entries(entries.push(e), seen, f) == added_entries(entries, seen, f) + (
        if !seen.contains(e.0) && f.matches(e.1@) {
            seq![e.0]
        } else {
            Seq::<Uuid>::empty()
        }),
    decreases entries.len(),
{
    let tail = if !seen.contains(e.0) && f.matches(e.1@) {
        seq![e.0]
    } else {
        Seq::<Uuid>::empty()
    };
    if entries.len() == 0 {
        assert(entries.push(e)[0] == e);
        assert(entries.push(e).drop_first() =~= Seq::<(Uuid, TaskMap)>::empty());
        assert(added_entries(entries.push(e).drop_first(), seen, f) =~= Seq::<Uuid>::empty());
        assert(added_entries(entries.push(e), seen, f) =~= tail);
        assert(added_entries(entries, seen, f) + tail =~= tail);
    } else {
        assert(entries.push(e)[0] == entries[0]);
        assert(entries.push(e).drop_first() =~= entries.drop_first().push(e));
        lemma_added_push(entries.drop_first(), e, seen, f);
        assert(added_entries(entries.push(e), seen, f) =~= added_entries(entries, seen, f)
            + tail);
    }
}

impl TaskDB {
    /// The representation invariant, inherited from storage.
    pub open spec fn wf(&self) -> bool {
        self.storage.wf()
    }

    /// The task set.
    pub open spec fn tasks_view(&self) -> TasksView {
        self.storage.tasks_view()
    }

    /// The pending local operation log.
    pub open spec fn log(&self) -> Seq<Operation> {
        self.storage.operations@
    }

    /// A database over the given storage.
    pub fn new(storage: InMemoryStorage) -> (r: TaskDB)
        ensures
            r.storage == storage,
    {
        TaskDB { storage }
    }

    /// A database over fresh in-memory storage.
    pub fn new_inmemory() -> (r: TaskDB)
        ensures
            r.wf(),
            r.tasks_view() =~= Map::<Uuid, Map<Seq<char>, Seq<char>>>::empty(),
            r.storage.tasks@.len() == 0,
            r.log() =~= Seq::<Operation>::empty(),
            r.storage.working_set@ =~= seq![Option::<Uuid>::None],
            r.storage.base_version == 0,
    {
        TaskDB::new(InMemoryStorage::new())
    }

    /// Validate and apply one operation against the storage alone; the
    /// pending log is left to the caller.
    #[verifier::rlimit(50)]
    fn apply_op(txn: &mut InMemoryStorage, op: &Operation) -> (r: Result<(), Error>)
        requires
            old(txn).wf(),
        ensures
            final(txn).wf(),
            match r {
                Ok(()) => {
                    &&& op_valid(old(txn).tasks_view(), *op)
                    &&& final(txn).tasks_view() == apply_op_tasks(old(txn).tasks_view(), *op)
                },
                Err(e) => {
                    &&& !op_valid(old(txn).tasks_view(), *op)
                    &&& *final(txn) == *old(txn)
                    &&& e == op_error(*op)
                },
            },
            final(txn).working_set@ == old(txn).working_set@,
            final(txn).operations@ == old(txn).operations@,
            final(txn).base_version == old(txn).base_version,
    {
        match op {
            Operation::Create { uuid } => {
                // insert only if the task does not already exist
                if !txn.create_task(*uuid) {
                    return Err(Error::CreateExists { uuid: *uuid });
                }
                proof {
                    assert(final(txn).tasks_view() =~~= apply_op_tasks(
                        old(txn).tasks_view(),
                        *op,
                    ));
                }
            },
            Operation::Delete { uuid } => {
                if !txn.delete_task(uuid) {
                    return Err(Error::DoesNotExist { uuid: *uuid });
                }
                proof {
                    assert(final(txn).tasks_view() =~~= apply_op_tasks(
                        old(txn).tasks_view(),
                        *op,
                    ));
                }
            },
            Operation::Update { uuid, property, value, timestamp: _ } => {
                // update only if the task exists
                match txn.get_task(uuid) {
                    Some(task) => {
                        let mut task = task;
                        match value {
                            Some(v) => task.set(property.clone(), v.clone()),
                            None => task.remove(property.as_str()),
                        }
                        txn.set_task(*uuid, task);
                        proof {
                            assert(final(txn).tasks_view() =~~= apply_op_tasks(
                                old(txn).tasks_view(),
                                *op,
                            ));
                        }
                    },
                    None => {
                        return Err(Error::DoesNotExist { uuid: *uuid });
                    },
                }
            },
        }
        Ok(())
    }

    /// Apply an operation. This is the only way to mutate the database apart
    /// from synchronization. A rejected operation changes nothing and
    /// reports why; an accepted one also joins the pending log.
    pub fn apply(&mut self, op: Operation) -> (r: Result<(), Error>)
        requires
            old(self).wf(),
        ensures
            final(self).wf(),
            match r {
                Ok(()) => {
                    &&& op_valid(old(self).tasks_view(), op)
                    &&& final(self).tasks_view() == apply_op_tasks(old(self).tasks_view(), op)
                    &&& final(self).log() == old(self).log().push(op)
                },
                Err(e) => {
                    &&& !op_valid(old(self).tasks_view(), op)
                    &&& *final(self) == *old(self)
                    &&& e == op_error(op)
                },
            },
            final(self).storage.working_set@ == old(self).storage.working_set@,
            final(self).storage.base_version == old(self).storage.base_version,
    {
        if let Err(e) = TaskDB::apply_op(&mut self.storage, &op) {
            return Err(e);
        }
        self.storage.add_operation(op);
        Ok(())
    }

    /// All tasks, in UUID order.
    pub fn all_tasks(&mut self) -> (r: Vec<(Uuid, TaskMap)>)
        requires
            old(self).wf(),
        ensures
            *final(self) == *old(self),
            r@.len() == old(self).storage.tasks@.len(),
            forall|i: int| 0 <= i < r@.len() ==> (#[trigger] r@[i]).0 == old(
                self,
            ).storage.tasks@[i].0,
            forall|i: int| 0 <= i < r@.len() ==> (#[trigger] r@[i]).1@ == old(
                self,
            ).storage.tasks@[i].1@,
            forall|i: int| 0 <= i < r@.len() ==> (#[trigger] r@[i]).1.pairs() == old(
                self,
            ).storage.tasks@[i].1.pairs(),
    {
        self.storage.all_tasks()
    }

    /// The UUIDs of all tasks, in UUID order.
    pub fn all_task_uuids(&mut self) -> (r: Vec<Uuid>)
        requires
            old(self).wf(),
        ensures
            *final(self) == *old(self),
            r@.len() == old(self).storage.tasks@.len(),
            forall|i: int| 0 <= i < r@.len() ==> r@[i] == old(self).storage.tasks@[i].0,
    {
        self.storage.all_task_uuids()
    }

    /// The working set.
    pub fn working_set(&mut self) -> (r: Vec<Option<Uuid>>)
        requires
            old(self).wf(),
        ensures
            *final(self) == *old(self),
            r@ == old(self).storage.working_set@,
    {
        self.storage.get_working_set()
    }

    /// One task by UUID.
    pub fn get_task(&mut self, uuid: &Uuid) -> (r: Option<TaskMap>)
        requires
            old(self).wf(),
        ensures
            *final(self) == *old(self),
            match r {
                Some(t) => {
                    &&& old(self).tasks_view().contains_key(*uuid)
                    &&& t@ == old(self).tasks_view()[*uuid]
                    &&& t.wf()
                },
                None => !old(self).tasks_view().contains_key(*uuid),
            },
    {
        self.storage.get_task(uuid)
    }

    /// A copy of the pending local operation log.
    pub fn operations(&mut self) -> (r: Vec<Operation>)
        requires
            old(self).wf(),
        ensures
            *final(self) == *old(self),
            r@ == old(self).log(),
    {
        self.storage.operations()
    }

    /// All tasks with their properties as sorted pair lists: tasks in UUID
    /// order, properties in name order.
    pub fn sorted_tasks(&mut self) -> (r: Vec<(Uuid, Vec<(String, String)>)>)
        requires
            old(self).wf(),
        ensures
            *final(self) == *old(self),
            r@.len() == old(self).storage.tasks@.len(),
            forall|i: int| 0 <= i < r@.len() ==> (#[trigger] r@[i]).0 == old(
                self,
            ).storage.tasks@[i].0,
            forall|i: int| 0 <= i < r@.len() ==> (#[trigger] r@[i]).1@ == old(
                self,
            ).storage.tasks@[i].1.pairs(),
    {
        let tasks = self.storage.all_tasks();
        let n = tasks.len();
        let mut r: Vec<(Uuid, Vec<(String, String)>)> = Vec::new();
        let mut i: usize = 0;
        while i < n
            invariant
                0 <= i <= n,
                n == tasks@.len(),
                tasks@.len() == self.storage.tasks@.len(),
                forall|j: int| 0 <= j < n ==> (#[trigger] tasks@[j]).0 == self.storage.tasks@[j].0,
                forall|j: int| 0 <= j < n ==> (#[trigger] tasks@[j]).1.pairs()
                    == self.storage.tasks@[j].1.pairs(),
                r@.len() == i,
                forall|j: int| 0 <= j < i ==> (#[trigger] r@[j]).0 == self.storage.tasks@[j].0,
                forall|j: int| 0 <= j < i ==> (#[trigger] r@[j]).1@
                    == self.storage.tasks@[j].1.pairs(),
            decreases n - i,
        {
            let p = &tasks[i];
            r.push((p.0, p.1.pairs_vec()));
            i = i + 1;
        }
        r
    }

    /// Add `uuid` to the working set and return its index; if it is already
    /// there, return the index it has. Existing slots never move.
    #[verifier::rlimit(50)]
    pub fn add_to_working_set(&mut self, uuid: &Uuid) -> (r: u64)
        requires
            old(self).wf(),
        ensures
            final(self).wf(),
            (final(self).storage.working_set@, r as int) == add_ws(
                old(self).storage.working_set@,
                *uuid,
            ),
            final(self).storage.tasks@ == old(self).storage.tasks@,
            final(self).storage.operations@ == old(self).storage.operations@,
            final(self).storage.base_version == old(self).storage.base_version,
    {
        let ghost ws = self.storage.working_set@;
        let set = self.storage.get_working_set();
        let n = set.len();
        let mut i: usize = 0;
        // search for a slot already holding the given UUID
        while i < n
            invariant
                0 <= i <= n,
                n == ws.len(),
                set@ == ws,
                ws == self.storage.working_set@,
                *self == *old(self),
                self.wf(),
                forall|j: int| 0 <= j < i ==> ws[j] != Some(*uuid),
            decreases n - i,
        {
            let hit = match &set[i] {
                Some(u) => u.v == uuid.v,
                None => false,
            };
            if hit {
                proof {
                    lemma_ws_index_of(ws, *uuid);
                    assert(ws[i as int] == Some(*uuid));
                    let r0 = ws_index_of(ws, *uuid);
                    assert(r0 != -1);
                    assert(r0 <= i as int);
                    assert(r0 == i as int);
                    assert(add_ws(ws, *uuid) == (ws, i as int));
                }
                return i as u64;
            }
            i = i + 1;
        }
        // not found: append a fresh slot
        proof {
            lemma_ws_index_of(ws, *uuid);
            assert(ws_index_of(ws, *uuid) == -1);
        }
        self.storage.add_to_working_set(uuid)
    }

    /// Rebuild the working set: keep the still-qualifying entries in their
    /// old order, compacted to the front, then append the other qualifying
    /// tasks in table order; drop everything else. Handles are renumbered.
    #[verifier::rlimit(50)]
    pub fn rebuild_working_set<F: TaskFilter>(&mut self, in_working_set: &F)
        requires
            old(self).wf(),
        ensures
            final(self).wf(),
            ({
                let kept = kept_entries(
                    old(self).storage.working_set@,
                    old(self).tasks_view(),
                    in_working_set,
                );
                let added = added_entries(old(self).storage.tasks@, kept, in_working_set);
                final(self).storage.working_set@ =~= seq![Option::<Uuid>::None] + (kept
                    + added).map_values(|u: Uuid| Some(u))
            }),
            final(self).storage.tasks@ == old(self).storage.tasks@,
            final(self).storage.operations@ == old(self).storage.operations@,
            final(self).storage.base_version == old(self).storage.base_version,
    {
        let ghost t = self.tasks_view();
        let ghost ws0 = self.storage.working_set@;
        let mut new_ws: Vec<Uuid> = Vec::new();

        // Keep the current entries that still qualify, in order, so that
        // they are compacted to the front.
        let ws = self.storage.get_working_set();
        let n = ws.len();
        let mut i: usize = 0;
        while i < n
            invariant
                0 <= i <= n,
                n == ws0.len(),
                ws@ == ws0,
                *self == *old(self),
                self.wf(),
                t == self.tasks_view(),
                new_ws@ == kept_entries(ws0.take(i as int), t, in_working_set),
            decreases n - i,
        {
            let ghost prefix = ws0.take(i as int);
            match &ws[i] {
                Some(uuid) => {
                    match self.storage.get_task(uuid) {
                        Some(task) => {
                            if in_working_set.check(&task) {
                                new_ws.push(*uuid);
                            }
                        },
                        None => {},
                    }
                },
                None => {},
            }
            proof {
                lemma_kept_push(prefix, ws0[i as int], t, in_working_set);
                assert(ws0.take(i + 1) =~= prefix.push(ws0[i as int]));
            }
            i = i + 1;
        }
        proof {
            assert(ws0.take(n as int) =~= ws0);
        }
        let ghost kept = kept_entries(ws0, t, in_working_set);
        let kept_len = new_ws.len();

        // Hunt for tasks that should be in the set but are not yet, adding
        // them at the end in table order.
        let tasks = self.storage.all_tasks();
        let m = tasks.len();
        let mut k: usize = 0;
        while k < m
            invariant
                0 <= k <= m,
                m == self.storage.tasks@.len(),
                tasks@.len() == m,
                forall|j: int| 0 <= j < m ==> (#[trigger] tasks@[j]).0 == self.storage.tasks@[j].0,
                forall|j: int| 0 <= j < m ==> (#[trigger] tasks@[j]).1@
                    == self.storage.tasks@[j].1@,
                forall|j: int| 0 <= j < m ==> (#[trigger] tasks@[j]).1.wf(),
                *self == *old(self),
                self.wf(),
                t == self.tasks_view(),
                kept_len == kept.len(),
                kept_len <= new_ws@.len(),
                new_ws@.take(kept_len as int) == kept,
                new_ws@ == kept + added_entries(
                    self.storage.tasks@.take(k as int),
                    kept,
                    in_working_set,
                ),
            decreases m - k,
        {
            let ghost prefix = self.storage.tasks@.take(k as int);
            let uuid = tasks[k].0;
            // seen exactly when phase one kept it
            let mut seen = false;
            let mut j: usize = 0;
            while j < kept_len
                invariant
                    0 <= j <= kept_len,
                    kept_len == kept.len(),
                    kept_len <= new_ws@.len(),
                    new_ws@.take(kept_len as int) == kept,
                    seen == (exists|x: int| 0 <= x < j && kept[x] == uuid),
                decreases kept_len - j,
            {
                if !seen && new_ws[j].v == uuid.v {
                    proof {
                        assert(new_ws@.take(kept_len as int)[j as int] == new_ws@[j as int]);
                        assert(kept[j as int] == uuid);
                    }
                    seen = true;
                }
                j = j + 1;
            }
            proof {
                assert(seen == kept.contains(uuid));
            }
            if !seen {
                if in_working_set.check(&tasks[k].1) {
                    new_ws.push(uuid);
                    proof {
                        assert(new_ws@.take(kept_len as int) == kept);
                    }
                }
            }
            proof {
                lemma_added_push(prefix, self.storage.tasks@[k as int], kept, in_working_set);
                assert(self.storage.tasks@.take(k + 1) =~= prefix.push(
                    self.storage.tasks@[k as int],
                ));
                assert(tasks@[k as int].0 == self.storage.tasks@[k as int].0);
                assert(tasks@[k as int].1@ == self.storage.tasks@[k as int].1@);
            }
            k = k + 1;
        }
        proof {
            assert(self.storage.tasks@.take(m as int) =~= self.storage.tasks@);
        }
        let ghost full = new_ws@;

        // Clear and rewrite the whole working set, in order.
        self.storage.clear_working_set();
        let w = new_ws.len();
        let mut q: usize = 0;
        while q < w
            invariant
                0 <= q <= w,
                w == full.len(),
                new_ws@ == full,
                self.wf(),
                self.storage.tasks@ == old(self).storage.tasks@,
                self.storage.operations@ == old(self).storage.operations@,
                self.storage.base_version == old(self).storage.base_version,
                self.storage.working_set@ =~= seq![Option::<Uuid>::None] + full.take(
                    q as int,
                ).map_values(|u: Uuid| Some(u)),
            decreases w - q,
        {
            self.storage.add_to_working_set(&new_ws[q]);
            proof {
                assert(full.take(q + 1).map_values(|u: Uuid| Some(u)) =~= full.take(
                    q as int,
                ).map_values(|u: Uuid| Some(u)).push(Some(full[q as int])));
            }
            q = q + 1;
        }
        proof {
            assert(full.take(w as int) =~= full);
            let kept0 = kept_entries(ws0, t, in_working_set);
            let added0 = added_entries(old(self).storage.tasks@, kept0, in_working_set);
            assert(full == kept0 + added0);
        }
    }

    /// Catch up on one server version: transform each of its operations
    /// through the pending local log, apply what survives (skipping an
    /// operation the state no longer accepts), keep the adjusted log, and
    /// advance the base version.
    #[verifier::rlimit(50)]
    fn apply_version(txn: &mut InMemoryStorage, version: &Version)
        requires
            old(txn).wf(),
        ensures
            final(txn).wf(),
            ({
                let stepped = apply_version_ops(
                    old(txn).tasks_view(),
                    old(txn).operations@,
                    version.operations@,
                );
                &&& final(txn).tasks_view() == stepped.0
                &&& final(txn).operations@ == stepped.1
            }),
            final(txn).base_version == version.version,
            final(txn).working_set@ == old(txn).working_set@,
    {
        let ghost t0 = txn.tasks_view();
        let ghost log0 = txn.operations@;
        let ghost sops = version.operations@;
        let mut local_operations = txn.operations();
        proof {
            assert(sops.skip(0) =~= sops);
        }
        let vn = version.operations.len();
        let mut i: usize = 0;
        while i < vn
            invariant
                0 <= i <= vn,
                vn == sops.len(),
                sops == version.operations@,
                txn.wf(),
                txn.working_set@ == old(txn).working_set@,
                apply_version_ops(t0, log0, sops) == apply_version_ops(
                    txn.tasks_view(),
                    local_operations@,
                    sops.skip(i as int),
                ),
            decreases vn - i,
        {
            let ghost t_i = txn.tasks_view();
            let ghost log_i = local_operations@;
            let server_op = version.operations[i].clone();
            let mut new_local_ops: Vec<Operation> = Vec::new();
            let mut svr_op: Option<Operation> = Some(server_op);
            proof {
                assert(log_i.skip(0) =~= log_i);
                let f2 = transform_fold(svr_op, log_i);
                assert(new_local_ops@ + f2.1 =~= f2.1);
            }
            let ln = local_operations.len();
            let mut j: usize = 0;
            while j < ln
                invariant
                    0 <= j <= ln,
                    ln == log_i.len(),
                    local_operations@ == log_i,
                    transform_fold(Some(sops[i as int]), log_i) == ({
                        let f2 = transform_fold(svr_op, log_i.skip(j as int));
                        (f2.0, new_local_ops@ + f2.1)
                    }),
                decreases ln - j,
            {
                let ghost carry = svr_op;
                let ghost out = new_local_ops@;
                proof {
                    assert(log_i.skip(j as int)[0] == log_i[j as int]);
                    assert(log_i.skip(j as int).drop_first() =~= log_i.skip(j + 1));
                }
                let local_op = local_operations[j].clone();
                match svr_op {
                    Some(o) => {
                        let (ns, nl) = transform(o, local_op);
                        svr_op = ns;
                        match nl {
                            Some(o2) => {
                                new_local_ops.push(o2);
                                proof {
                                    let r = transform_spec(carry->Some_0, log_i[j as int]);
                                    assert(new_local_ops@ =~= out + crate::model::opt_seq(r.1));
                                }
                            },
                            None => {
                                proof {
                                    let r = transform_spec(carry->Some_0, log_i[j as int]);
                                    assert(new_local_ops@ =~= out + crate::model::opt_seq(r.1));
                                }
                            },
                        }
                        proof {
                            let r = transform_spec(carry->Some_0, log_i[j as int]);
                            let folded = transform_fold(svr_op, log_i.skip(j + 1));
                            assert(transform_fold(carry, log_i.skip(j as int)) == (
                                folded.0,
                                crate::model::opt_seq(r.1) + folded.1,
                            ));
                            assert(out + (crate::model::opt_seq(r.1) + folded.1)
                                =~= new_local_ops@ + folded.1);
                        }
                    },
                    None => {
                        new_local_ops.push(local_op);
                        proof {
                            assert(transform_fold(carry, log_i.skip(j as int)) == (
                                None::<Operation>,
                                log_i.skip(j as int),
                            ));
                            assert(log_i.skip(j as int) =~= seq![log_i[j as int]] + log_i.skip(
                                j + 1,
                            ));
                            assert(out + log_i.skip(j as int) =~= new_local_ops@ + log_i.skip(
                                j + 1,
                            ));
                        }
                    },
                }
                j = j + 1;
            }
            proof {
                assert(log_i.skip(ln as int) =~= Seq::<Operation>::empty());
                let f2 = transform_fold(svr_op, log_i.skip(ln as int));
                assert(f2 == (svr_op, Seq::<Operation>::empty()));
                assert(new_local_ops@ + Seq::<Operation>::empty() =~= new_local_ops@);
                assert(transform_fold(Some(sops[i as int]), log_i) == (svr_op, new_local_ops@));
            }
            // apply the surviving server operation; a rejected one is
            // dropped so that the rest of the history still converges
            match svr_op {
                Some(o) => {
                    match TaskDB::apply_op(txn, &o) {
                        Ok(()) => {},
                        Err(_) => {},
                    }
                },
                None => {},
            }
            proof {
                assert(txn.tasks_view() == apply_opt(
                    t_i,
                    transform_fold(Some(sops[i as int]), log_i).0,
                ));
                assert(apply_server_op(t_i, log_i, sops[i as int]) == (
                    txn.tasks_view(),
                    new_local_ops@,
                ));
                assert(sops.skip(i as int)[0] == sops[i as int]);
                assert(sops.skip(i as int).drop_first() =~= sops.skip(i + 1));
            }
            local_operations = new_local_ops;
            i = i + 1;
        }
        proof {
            assert(sops.skip(vn as int) =~= Seq::<Operation>::empty());
            assert(apply_version_ops(t0, log0, sops) == (
                txn.tasks_view(),
                local_operations@,
            ));
        }
        txn.set_base_version(version.version);
        txn.set_operations(local_operations);
    }

    /// Synchronize with the server: pull every version past the base and
    /// rebase the pending log over each, then push whatever of the log is
    /// left as the next version. The push retries after pulling again if
    /// another replica got there first; with this server held exclusively
    /// for the call, the first push is already accepted.
    #[verifier::rlimit(50)]
    pub fn sync(&mut self, username: &str, server: &mut Server)
        requires
            old(self).wf(),
            old(server).wf(),
            old(self).storage.base_version <= old(server).versions@.len(),
            old(server).versions@.len() + 1 < 0xffff_ffff_ffff_ffff,
        ensures
            final(self).wf(),
            final(server).wf(),
            ({
                let r = sync_spec(
                    old(self).tasks_view(),
                    old(self).log(),
                    old(self).storage.base_version as int,
                    old(server).log_view(),
                );
                &&& final(self).tasks_view() == r.0
                &&& final(server).log_view() == r.1
                &&& final(self).log().len() == 0
                &&& final(self).storage.base_version == r.1.len()
            }),
            final(self).storage.working_set@ == old(self).storage.working_set@,
    {
        let ghost t0 = self.tasks_view();
        let ghost log0 = self.log();
        let ghost base0 = self.storage.base_version as int;
        let ghost srv_log = server.log_view();
        loop
            invariant
                *self == *old(self),
                *server == *old(server),
                self.wf(),
                server.wf(),
                t0 == self.tasks_view(),
                log0 == self.log(),
                base0 == self.storage.base_version as int,
                srv_log == server.log_view(),
                base0 <= srv_log.len(),
                srv_log.len() + 1 < 0xffff_ffff_ffff_ffff,
            decreases 0int,
        {
            // first pull changes and rebase the pending log on top of them
            let base = self.storage.base_version();
            let new_versions = server.get_versions(username, base);
            let nv = new_versions.len();
            let mut i: usize = 0;
            while i < nv
                invariant
                    0 <= i <= nv,
                    base0 + nv == srv_log.len(),
                    nv == new_versions@.len(),
                    forall|k: int| 0 <= k < nv ==> (#[trigger] new_versions@[k]).version == base0
                        + k + 1,
                    forall|k: int| 0 <= k < nv ==> (#[trigger] new_versions@[k]).operations@
                        == srv_log[base0 + k],
                    *server == *old(server),
                    server.wf(),
                    srv_log == server.log_view(),
                    self.wf(),
                    self.storage.base_version == base0 + i,
                    self.storage.working_set@ == old(self).storage.working_set@,
                    catch_up(t0, log0, srv_log, base0) == catch_up(
                        self.tasks_view(),
                        self.log(),
                        srv_log,
                        base0 + i,
                    ),
                decreases nv - i,
            {
                let ghost t_prev = self.tasks_view();
                let ghost log_prev = self.log();
                TaskDB::apply_version(&mut self.storage, &new_versions[i]);
                proof {
                    assert(catch_up(t_prev, log_prev, srv_log, base0 + i) == catch_up(
                        self.tasks_view(),
                        self.log(),
                        srv_log,
                        base0 + i + 1,
                    ));
                }
                i = i + 1;
            }
            proof {
                assert(catch_up(t0, log0, srv_log, base0) == (self.tasks_view(), self.log()));
            }

            let operations = self.storage.operations();
            if operations.len() == 0 {
                // nothing to push back to the server
                return;
            }

            // package the pending log as the next version and push it
            let next = self.storage.base_version() + 1;
            let new_version = Version { version: next, operations };
            match server.add_version(username, new_version) {
                VersionAdd::Accepted => {
                    self.storage.set_base_version(next);
                    self.storage.set_operations(Vec::new());
                    return;
                },
                VersionAdd::Conflict => {
                    // the server was ours alone for this call: version
                    // base + 1 cannot have been taken
                    proof {
                        assert(false);
                    }
                },
            }
        }
    }
}

} // verus!
