//! The mathematical model of a replica: what each operation means on the
//! task set, how one server operation is transformed against the pending
//! local log, and what one whole synchronization does.
//!
//! Executable code in `taskdb` and `server` is specified against these
//! functions; the laws in `laws` are stated and proved about them.

use crate::types::{Operation, Uuid};
use vstd::prelude::*;

verus! {

/// The task set: each live UUID's property map.
pub type TasksView = Map<Uuid, Map<Seq<char>, Seq<char>>>;

/// Whether `op` is accepted on task set `t`: a creation needs a fresh UUID,
/// a deletion or update an existing one.
pub open spec fn op_valid(t: TasksView, op: Operation) -> bool {
    match op {
        Operation::Create { uuid } => !t.contains_key(uuid),
        Operation::Delete { uuid } => t.contains_key(uuid),
        Operation::Update { uuid, .. } => t.contains_key(uuid),
    }
}

/// The effect of a valid `op` on task set `t`.
pub open spec fn apply_op_tasks(t: TasksView, op: Operation) -> TasksView {
    match op {
        Operation::Create { uuid } => t.insert(uuid, Map::empty()),
        Operation::Delete { uuid } => t.remove(uuid),
        Operation::Update { uuid, property, value, timestamp: _ } => match value {
            Some(v) => t.insert(uuid, t[uuid].insert(property@, v@)),
            None => t.insert(uuid, t[uuid].remove(property@)),
        },
    }
}

/// Apply if valid, otherwise skip: the semantics used while catching up on
/// server operations, where a rejected operation is logged and dropped.
pub open spec fn apply_loose(t: TasksView, op: Operation) -> TasksView {
    if op_valid(t, op) {
        apply_op_tasks(t, op)
    } else {
        t
    }
}

/// Lift `apply_loose` to an optional operation.
pub open spec fn apply_opt(t: TasksView, op: Option<Operation>) -> TasksView {
    match op {
        Some(o) => apply_loose(t, o),
        None => t,
    }
}

/// Apply a whole sequence of operations, in order, skipping any the state
/// does not accept.
pub open spec fn apply_log(t: TasksView, log: Seq<Operation>) -> TasksView
    decreases log.len(),
{
    if log.len() == 0 {
        t
    } else {
        apply_log(apply_loose(t, log[0]), log.drop_first())
    }
}

/// Every operation of the sequence validates on the state reached by the
/// ones before it: the shape of a log a replica accepted one by one.
pub open spec fn seq_valid(t: TasksView, log: Seq<Operation>) -> bool
    decreases log.len(),
{
    if log.len() == 0 {
        true
    } else {
        op_valid(t, log[0]) && seq_valid(apply_op_tasks(t, log[0]), log.drop_first())
    }
}

/// A server operation still worth carrying through the local log: one the
/// base state accepts, or a creation that has been overtaken — the one way
/// a server operation in play can fail to validate.
pub open spec fn carry_ok(t: TasksView, c: Option<Operation>) -> bool {
    match c {
        None => true,
        Some(op) => op is Create || op_valid(t, op),
    }
}

/// Pairwise operational transform. `op1` is the server's operation (already
/// committed there), `op2` a pending local one. The result is the server
/// operation to still apply locally and the local operation to still push,
/// either of which may have become a no-op:
/// - concurrent creations keep the server's copy;
/// - between a creation and a deletion, the later-arriving local decision
///   wins and the server operation is dropped;
/// - two deletions have already converged, both are dropped;
/// - a deletion beats an update from either side;
/// - updates to the same property keep the later write, the server's on a
///   timestamp tie, which every replica resolves the same way;
/// - anything else does not conflict and passes through unchanged.
pub open spec fn transform_spec(op1: Operation, op2: Operation) -> (
    Option<Operation>,
    Option<Operation>,
) {
    if op1.target() != op2.target() {
        (Some(op1), Some(op2))
    } else {
        match (op1, op2) {
            (Operation::Create { .. }, Operation::Create { .. }) => (Some(op1), None),
            (Operation::Create { .. }, Operation::Delete { .. }) => (None, Some(op2)),
            (Operation::Delete { .. }, Operation::Create { .. }) => (None, Some(op2)),
            (Operation::Delete { .. }, Operation::Delete { .. }) => (None, None),
            (Operation::Update { .. }, Operation::Delete { .. }) => (None, Some(op2)),
            (Operation::Delete { .. }, Operation::Update { .. }) => (Some(op1), None),
            (
                Operation::Update { property: p1, timestamp: t1, .. },
                Operation::Update { property: p2, timestamp: t2, .. },
            ) => {
                if p1@ == p2@ {
                    if t1 >= t2 {
                        (Some(op1), None)
                    } else {
                        (None, Some(op2))
                    }
                } else {
                    (Some(op1), Some(op2))
                }
            },
            _ => (Some(op1), Some(op2)),
        }
    }
}

/// The sequence a possibly-dropped operation contributes to a log.
pub open spec fn opt_seq(op: Option<Operation>) -> Seq<Operation> {
    match op {
        Some(o) => seq![o],
        None => Seq::empty(),
    }
}

/// Fold one carried server operation over the pending local log, front to
/// back: each step transforms the carry against the next local operation;
/// once the carry is gone the rest of the log passes through unchanged.
/// Yields the surviving server operation and the adjusted local log.
pub open spec fn transform_fold(carry: Option<Operation>, log: Seq<Operation>) -> (
    Option<Operation>,
    Seq<Operation>,
)
    decreases log.len(),
{
    if log.len() == 0 {
        (carry, Seq::empty())
    } else {
        match carry {
            None => (None, log),
            Some(s) => {
                let (s2, l2) = transform_spec(s, log[0]);
                let folded = transform_fold(s2, log.drop_first());
                (folded.0, opt_seq(l2) + folded.1)
            },
        }
    }
}

/// Catch up on one server operation: transform it through the local log,
/// apply what survives (skipping it if it no longer validates), and keep the
/// adjusted log.
pub open spec fn apply_server_op(t: TasksView, log: Seq<Operation>, sop: Operation) -> (
    TasksView,
    Seq<Operation>,
) {
    let folded = transform_fold(Some(sop), log);
    (apply_opt(t, folded.0), folded.1)
}

/// Catch up on one server version's operations, in order.
pub open spec fn apply_version_ops(t: TasksView, log: Seq<Operation>, sops: Seq<Operation>) -> (
    TasksView,
    Seq<Operation>,
)
    decreases sops.len(),
{
    if sops.len() == 0 {
        (t, log)
    } else {
        let stepped = apply_server_op(t, log, sops[0]);
        apply_version_ops(stepped.0, stepped.1, sops.drop_first())
    }
}

/// Catch up on every server version past the base, in version order.
pub open spec fn catch_up(t: TasksView, log: Seq<Operation>, versions: Seq<Seq<Operation>>, base: int) -> (
    TasksView,
    Seq<Operation>,
)
    decreases versions.len() - base,
{
    if base < 0 || base >= versions.len() {
        (t, log)
    } else {
        let stepped = apply_version_ops(t, log, versions[base]);
        catch_up(stepped.0, stepped.1, versions, base + 1)
    }
}

/// One whole synchronization of a replica `(t, log, base)` against a server
/// holding `versions`: catch up on everything new, then, if any local
/// operations remain, push them as the next version. Returns the replica's
/// task set and the server's versions; afterwards the log is always empty
/// and the base is the length of the returned version sequence.
pub open spec fn sync_spec(
    t: TasksView,
    log: Seq<Operation>,
    base: int,
    versions: Seq<Seq<Operation>>,
) -> (TasksView, Seq<Seq<Operation>>) {
    let caught = catch_up(t, log, versions, base);
    if caught.1.len() == 0 {
        (caught.0, versions)
    } else {
        (caught.0, versions.push(caught.1))
    }
}

} // verus!
