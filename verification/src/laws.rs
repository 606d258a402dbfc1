//! The guarantees the store gives, stated and proved over the model.
//!
//! Validation laws speak of `op_valid` and `apply_op_tasks`, which
//! `TaskDB::apply` is specified against; the synchronization laws speak of
//! `sync_spec` and `transform_spec`, which `TaskDB::sync` and
//! `Operation::transform` are specified against.

use crate::model::{
    apply_log, apply_loose, apply_op_tasks, apply_opt, apply_server_op, apply_version_ops,
    carry_ok, catch_up, op_valid, opt_seq, seq_valid, sync_spec, transform_fold, transform_spec,
    TasksView,
};
use crate::storage::lemma_sorted_tasks_canonical;
use crate::taskdb::{add_ws, lemma_ws_index_of, ws_index_of, TaskDB};
use crate::taskmap::pairs_alike;
use crate::transform::lemma_transform_convergent;
use crate::types::{Operation, Uuid};
use vstd::prelude::*;

verus! {

/// Creating, deleting and re-creating one UUID succeeds at every step, and
/// the second creation leaves a fresh, empty task.
pub proof fn lemma_create_delete_create(t: TasksView, u: Uuid)
    requires
        !t.contains_key(u),
    ensures
        ({
            let c = Operation::Create { uuid: u };
            let d = Operation::Delete { uuid: u };
            let t1 = apply_op_tasks(t, c);
            let t2 = apply_op_tasks(t1, d);
            let t3 = apply_op_tasks(t2, c);
            &&& op_valid(t, c)
            &&& op_valid(t1, d)
            &&& op_valid(t2, c)
            &&& t3.contains_key(u)
            &&& t3[u] =~= Map::<Seq<char>, Seq<char>>::empty()
        }),
{
}

/// A second creation of the same UUID is rejected; `TaskDB::apply` then
/// promises the task set and the pending log are left untouched.
pub proof fn lemma_create_twice_fails(t: TasksView, u: Uuid)
    requires
        !t.contains_key(u),
    ensures
        op_valid(t, Operation::Create { uuid: u }),
        !op_valid(
            apply_op_tasks(t, Operation::Create { uuid: u }),
            Operation::Create { uuid: u },
        ),
{
}

/// An update of a UUID that does not exist is rejected; `TaskDB::apply`
/// then promises the task set and the pending log are left untouched.
pub proof fn lemma_update_nonexistent_fails(
    t: TasksView,
    u: Uuid,
    property: String,
    value: Option<String>,
    timestamp: u64,
)
    requires
        !t.contains_key(u),
    ensures
        !op_valid(t, Operation::Update { uuid: u, property, value, timestamp }),
{
}

/// Adding a UUID to the working set twice returns the same index both times
/// and adds no second slot.
pub proof fn lemma_add_to_working_set_idempotent(ws: Seq<Option<Uuid>>, u: Uuid)
    ensures
        add_ws(add_ws(ws, u).0, u) == add_ws(ws, u),
{
    lemma_ws_index_of(ws, u);
    if ws_index_of(ws, u) < 0 {
        let ws2 = ws.push(Some(u));
        lemma_ws_index_of(ws2, u);
        let i2 = ws_index_of(ws2, u);
        assert(ws2[ws.len() as int] == Some(u));
        assert(i2 != -1);
        if i2 < ws.len() {
            assert(ws2[i2] == ws[i2]);
            assert(false);
        }
        assert(i2 == ws.len() as int);
    }
}

/// Equal task sets are listed identically: two well-formed replicas whose
/// task sets are equal agree, entry for entry, on the UUIDs and property
/// text that `TaskDB::sorted_tasks` lists, so convergence of the task sets
/// is visible in the listings.
pub proof fn lemma_equal_task_sets_list_alike(a: TaskDB, b: TaskDB)
    requires
        a.wf(),
        b.wf(),
        a.tasks_view() == b.tasks_view(),
    ensures
        a.storage.tasks@.len() == b.storage.tasks@.len(),
        forall|i: int| 0 <= i < a.storage.tasks@.len() ==> (#[trigger] a.storage.tasks@[i]).0
            == b.storage.tasks@[i].0 && pairs_alike(
            a.storage.tasks@[i].1.pairs(),
            b.storage.tasks@[i].1.pairs(),
        ),
{
    lemma_sorted_tasks_canonical(a.storage.tasks@, b.storage.tasks@);
}

/// Unfolding helper: transforming one server operation through a
/// single-entry local log is one pairwise transform.
proof fn lemma_transform_fold_singleton(sop: Operation, lop: Operation)
    ensures
        transform_fold(Some(sop), seq![lop]) == (
            transform_spec(sop, lop).0,
            opt_seq(transform_spec(sop, lop).1),
        ),
{
    let log = seq![lop];
    assert(log[0] == lop);
    assert(log.drop_first() =~= Seq::<Operation>::empty());
    let r = transform_spec(sop, lop);
    assert(transform_fold(r.0, Seq::<Operation>::empty()) == (
        r.0,
        Seq::<Operation>::empty(),
    ));
    assert(opt_seq(r.1) + Seq::<Operation>::empty() =~= opt_seq(r.1));
}

/// Unfolding helper: transforming one server operation through an empty
/// local log passes it through.
proof fn lemma_transform_fold_empty(sop: Operation)
    ensures
        transform_fold(Some(sop), Seq::<Operation>::empty()) == (
            Some(sop),
            Seq::<Operation>::empty(),
        ),
{
}

/// Applying a concatenation of logs is applying one after the other.
proof fn lemma_apply_log_concat(t: TasksView, a: Seq<Operation>, b: Seq<Operation>)
    ensures
        apply_log(t, a + b) == apply_log(apply_log(t, a), b),
    decreases a.len(),
{
    if a.len() == 0 {
        assert(a + b =~= b);
        assert(apply_log(t, a) == t);
    } else {
        assert((a + b)[0] == a[0]);
        assert((a + b).drop_first() =~= a.drop_first() + b);
        assert((a + b).len() != 0);
        lemma_apply_log_concat(apply_loose(t, a[0]), a.drop_first(), b);
    }
}

/// A carried server operation stays worth carrying after transforming it
/// against one accepted local operation.
proof fn lemma_carry_propagates(t: TasksView, s_op: Operation, l: Operation)
    requires
        carry_ok(t, Some(s_op)),
        op_valid(t, l),
    ensures
        carry_ok(apply_op_tasks(t, l), transform_spec(s_op, l).0),
{
    let r = transform_spec(s_op, l);
    let t1 = apply_op_tasks(t, l);
    match r.0 {
        None => {},
        Some(o) => {
            if !(o is Create) {
                assert(o == s_op);
                assert(op_valid(t, s_op));
                assert(op_valid(t1, s_op));
            }
        },
    }
}

/// Convergence of the whole fold: transforming one server operation through
/// a pending local log that was accepted on the base state. Replaying the
/// local log and then the surviving server operation reaches the same task
/// set as applying the server operation and then replaying the adjusted
/// log; and the adjusted log is accepted, in order, on the server's side of
/// the fork.
#[verifier::rlimit(50)]
pub proof fn lemma_fold_convergent(t: TasksView, c: Option<Operation>, log: Seq<Operation>)
    requires
        seq_valid(t, log),
        carry_ok(t, c),
    ensures
        ({
            let f = transform_fold(c, log);
            &&& apply_opt(apply_log(t, log), f.0) =~~= apply_log(apply_opt(t, c), f.1)
            &&& seq_valid(apply_opt(t, c), f.1)
        }),
    decreases log.len(),
{
    let f = transform_fold(c, log);
    if log.len() == 0 {
        assert(f == (c, Seq::<Operation>::empty()));
        assert(apply_log(t, log) == t);
        assert(apply_log(apply_opt(t, c), f.1) == apply_opt(t, c));
    } else {
        match c {
            None => {
                assert(f == (None::<Operation>, log));
                assert(apply_opt(t, c) == t);
            },
            Some(s_op) => {
                let l0 = log[0];
                let rest = log.drop_first();
                let r = transform_spec(s_op, l0);
                let t1 = apply_op_tasks(t, l0);
                lemma_transform_convergent(t, s_op, l0);
                lemma_carry_propagates(t, s_op, l0);
                assert(apply_loose(t, l0) == t1);
                lemma_fold_convergent(t1, r.0, rest);
                let f2 = transform_fold(r.0, rest);
                assert(f == (f2.0, opt_seq(r.1) + f2.1));
                let a_side = apply_loose(t, s_op);
                assert(apply_opt(t, c) == a_side);
                // the two sides of the fork agree after one exchange
                assert(apply_opt(t1, r.0) =~~= apply_opt(a_side, r.1));
                assert(apply_opt(t1, r.0) == apply_opt(a_side, r.1));
                assert(apply_log(t, log) == apply_log(t1, rest));
                // one step of replay on the server's side
                assert(apply_log(a_side, opt_seq(r.1)) == apply_opt(a_side, r.1)) by {
                    match r.1 {
                        Some(o) => {
                            assert(opt_seq(r.1)[0] == o);
                            assert(opt_seq(r.1).drop_first() =~= Seq::<Operation>::empty());
                            assert(opt_seq(r.1).len() != 0);
                            assert(apply_log(
                                apply_loose(a_side, o),
                                Seq::<Operation>::empty(),
                            ) == apply_loose(a_side, o));
                        },
                        None => {},
                    }
                }
                lemma_apply_log_concat(a_side, opt_seq(r.1), f2.1);
                assert(apply_opt(apply_log(t, log), f.0) =~~= apply_log(
                    apply_opt(t, c),
                    f.1,
                ));
                // the adjusted log is accepted in order on the server's side
                match r.1 {
                    Some(o) => {
                        assert(o == l0 && op_valid(a_side, o));
                        assert(f.1[0] == o);
                        assert(f.1.drop_first() =~= f2.1);
                        assert(apply_op_tasks(a_side, o) == apply_opt(a_side, r.1));
                        assert(seq_valid(apply_opt(t1, r.0), f2.1));
                        assert(seq_valid(a_side, f.1));
                    },
                    None => {
                        assert(f.1 =~= f2.1);
                        assert(apply_opt(a_side, r.1) == a_side);
                        assert(seq_valid(a_side, f.1));
                    },
                }
            },
        }
    }
}

/// Catching up on a version with an empty pending log applies its
/// operations one after the other, unchanged.
proof fn lemma_catch_up_pass_through(t: TasksView, sops: Seq<Operation>)
    ensures
        apply_version_ops(t, Seq::empty(), sops) == (
            apply_log(t, sops),
            Seq::<Operation>::empty(),
        ),
    decreases sops.len(),
{
    if sops.len() > 0 {
        let sop = sops[0];
        assert(transform_fold(Some(sop), Seq::<Operation>::empty()) == (
            Some(sop),
            Seq::<Operation>::empty(),
        ));
        assert(apply_server_op(t, Seq::empty(), sop) == (
            apply_loose(t, sop),
            Seq::<Operation>::empty(),
        ));
        lemma_catch_up_pass_through(apply_loose(t, sop), sops.drop_first());
    }
}

/// Catching up on one whole version keeps the fork relation. The replica's
/// pending log `lb` and the version's operations `la` were each accepted in
/// order on the shared base `bk`. After transforming every operation of the
/// version through the log, the replica's task set is the server-side state
/// — the base with the version applied — with the adjusted log replayed on
/// top, and that adjusted log is accepted there in order.
pub proof fn lemma_version_convergent(bk: TasksView, lb: Seq<Operation>, la: Seq<Operation>)
    requires
        seq_valid(bk, lb),
        seq_valid(bk, la),
    ensures
        ({
            let stepped = apply_version_ops(apply_log(bk, lb), lb, la);
            let b2 = apply_log(bk, la);
            &&& stepped.0 == apply_log(b2, stepped.1)
            &&& seq_valid(b2, stepped.1)
        }),
    decreases la.len(),
{
    let t_b = apply_log(bk, lb);
    if la.len() == 0 {
        assert(apply_version_ops(t_b, lb, la) == (t_b, lb));
        assert(apply_log(bk, la) == bk);
    } else {
        let sop = la[0];
        let rest = la.drop_first();
        let f = transform_fold(Some(sop), lb);
        lemma_fold_convergent(bk, Some(sop), lb);
        let b1 = apply_op_tasks(bk, sop);
        assert(apply_opt(bk, Some(sop)) == b1);
        assert(apply_opt(t_b, f.0) =~~= apply_log(b1, f.1));
        assert(apply_opt(t_b, f.0) == apply_log(b1, f.1));
        assert(apply_server_op(t_b, lb, sop) == (apply_opt(t_b, f.0), f.1));
        assert(apply_version_ops(t_b, lb, la) == apply_version_ops(
            apply_opt(t_b, f.0),
            f.1,
            rest,
        ));
        assert(seq_valid(b1, f.1));
        assert(seq_valid(b1, rest));
        lemma_version_convergent(b1, f.1, rest);
        assert(apply_log(bk, la) == apply_log(b1, rest));
    }
}

/// Full convergence. Two replicas share task set `t` and are both synced
/// against a server holding `versions`. Each applies any sequence of
/// operations it accepts, one by one. Replica A then syncs, B syncs, and A
/// syncs again; afterwards both hold the same task set and have seen the
/// same server log.
#[verifier::rlimit(50)]
pub proof fn lemma_sequences_converge(
    t: TasksView,
    versions: Seq<Seq<Operation>>,
    la: Seq<Operation>,
    lb: Seq<Operation>,
)
    requires
        seq_valid(t, la),
        seq_valid(t, lb),
    ensures
        ({
            let n = versions.len() as int;
            let sa1 = sync_spec(apply_log(t, la), la, n, versions);
            let sb1 = sync_spec(apply_log(t, lb), lb, n, sa1.1);
            let sa2 = sync_spec(sa1.0, Seq::empty(), sa1.1.len() as int, sb1.1);
            &&& sa2.0 == sb1.0
            &&& sa2.1 == sb1.1
        }),
{
    let n = versions.len() as int;
    let ta = apply_log(t, la);
    let tb = apply_log(t, lb);

    // A's first sync: nothing to pull; push the log if it holds anything
    assert(catch_up(ta, la, versions, n) == (ta, la));
    let sa1 = sync_spec(ta, la, n, versions);

    if la.len() == 0 {
        assert(ta == t);
        assert(sa1 == (t, versions));
        // B pulls nothing either and pushes its log if it holds anything
        assert(catch_up(tb, lb, versions, n) == (tb, lb));
        let sb1 = sync_spec(tb, lb, n, versions);
        if lb.len() == 0 {
            assert(tb == t);
            assert(sb1 == (t, versions));
            assert(catch_up(t, Seq::empty(), versions, n) == (
                t,
                Seq::<Operation>::empty(),
            ));
        } else {
            let v2 = versions.push(lb);
            assert(sb1 == (tb, v2));
            // A pulls B's version and replays it over an empty log
            assert(v2[n] == lb);
            lemma_catch_up_pass_through(t, lb);
            assert(catch_up(t, Seq::empty(), v2, n) == catch_up(
                apply_log(t, lb),
                Seq::empty(),
                v2,
                n + 1,
            ));
            assert(catch_up(apply_log(t, lb), Seq::empty(), v2, n + 1) == (
                tb,
                Seq::<Operation>::empty(),
            ));
            let sa2 = sync_spec(t, Seq::empty(), n, v2);
            assert(sa2 == (tb, v2));
        }
    } else {
        let v1 = versions.push(la);
        assert(sa1 == (ta, v1));
        // B pulls A's version and transforms it through its pending log
        assert(v1[n] == la);
        let stepped = apply_version_ops(tb, lb, la);
        lemma_version_convergent(t, lb, la);
        assert(stepped.0 == apply_log(ta, stepped.1));
        assert(seq_valid(ta, stepped.1));
        assert(catch_up(tb, lb, v1, n) == catch_up(stepped.0, stepped.1, v1, n + 1));
        assert(catch_up(stepped.0, stepped.1, v1, n + 1) == stepped);
        let sb1 = sync_spec(tb, lb, n, v1);
        if stepped.1.len() == 0 {
            assert(sb1 == (stepped.0, v1));
            assert(stepped.0 == ta);
            assert(catch_up(ta, Seq::empty(), v1, n + 1) == (
                ta,
                Seq::<Operation>::empty(),
            ));
            let sa2 = sync_spec(ta, Seq::empty(), n + 1, v1);
            assert(sa2 == (ta, v1));
        } else {
            let v2 = v1.push(stepped.1);
            assert(sb1 == (stepped.0, v2));
            // A pulls the adjusted log and replays it over an empty log
            assert(v2[n + 1] == stepped.1);
            lemma_catch_up_pass_through(ta, stepped.1);
            assert(catch_up(ta, Seq::empty(), v2, n + 1) == catch_up(
                apply_log(ta, stepped.1),
                Seq::empty(),
                v2,
                n + 2,
            ));
            assert(catch_up(apply_log(ta, stepped.1), Seq::empty(), v2, n + 2) == (
                stepped.0,
                Seq::<Operation>::empty(),
            ));
            let sa2 = sync_spec(ta, Seq::empty(), n + 1, v2);
            assert(sa2 == (stepped.0, v2));
        }
    }
}

/// Convergence. Two replicas share task set `t` and are both fully synced
/// against a server holding `versions`. Each applies one operation it
/// accepts — a creation, update or deletion. Replica A then syncs, B syncs,
/// and A syncs again; afterwards both hold the same task set.
#[verifier::rlimit(50)]
pub proof fn lemma_one_op_each_converges(
    t: TasksView,
    versions: Seq<Seq<Operation>>,
    opa: Operation,
    opb: Operation,
)
    requires
        op_valid(t, opa),
        op_valid(t, opb),
    ensures
        ({
            let n = versions.len() as int;
            let sa1 = sync_spec(apply_op_tasks(t, opa), seq![opa], n, versions);
            let sb1 = sync_spec(apply_op_tasks(t, opb), seq![opb], sa1.1.len() as int - 1, sa1.1);
            let sa2 = sync_spec(sa1.0, Seq::empty(), sa1.1.len() as int, sb1.1);
            &&& sa2.0 =~~= sb1.0
            &&& sa2.1 == sb1.1
        }),
{
    let n = versions.len() as int;
    let ta = apply_op_tasks(t, opa);
    let tb = apply_op_tasks(t, opb);

    // A's first sync: nothing to pull, push [opa] as version n + 1
    assert(catch_up(ta, seq![opa], versions, n) == (ta, seq![opa]));
    let sa1 = sync_spec(ta, seq![opa], n, versions);
    let v1 = versions.push(seq![opa]);
    assert(seq![opa].len() != 0);
    assert(sa1 == (ta, v1));

    // B's sync: pull [opa], transform it against [opb], then push what is
    // left of the local log, if anything
    let r = transform_spec(opa, opb);
    lemma_transform_fold_singleton(opa, opb);
    assert(v1[n] == seq![opa]);
    assert(seq![opa][0] == opa);
    assert(seq![opa].drop_first() =~= Seq::<Operation>::empty());
    let tb2 = apply_opt(tb, r.0);
    assert(apply_server_op(tb, seq![opb], opa) == (tb2, opt_seq(r.1)));
    assert(apply_version_ops(tb, seq![opb], seq![opa]) == apply_version_ops(
        tb2,
        opt_seq(r.1),
        seq![opa].drop_first(),
    ));
    assert(apply_version_ops(tb, seq![opb], seq![opa]) == (tb2, opt_seq(r.1)));
    assert(catch_up(tb, seq![opb], v1, n) == catch_up(tb2, opt_seq(r.1), v1, n + 1));
    assert(catch_up(tb2, opt_seq(r.1), v1, n + 1) == (tb2, opt_seq(r.1)));
    assert(sa1.1.len() as int - 1 == n);
    let sb1 = sync_spec(tb, seq![opb], n, v1);

    lemma_transform_convergent(t, opa, opb);
    assert(apply_loose(t, opa) == ta);
    assert(apply_loose(t, opb) == tb);

    match r.1 {
        None => {
            // B keeps nothing to push; A's second sync pulls nothing
            assert(opt_seq(r.1).len() == 0);
            assert(sb1 == (tb2, v1));
            assert(catch_up(ta, Seq::empty(), v1, n + 1) == (
                ta,
                Seq::<Operation>::empty(),
            ));
            let sa2 = sync_spec(ta, Seq::empty(), n + 1, v1);
            assert(sa2 == (ta, v1));
            assert(apply_opt(ta, r.1) == ta);
            assert(sa2.0 =~~= sb1.0);
        },
        Some(lop) => {
            // B pushes the adjusted local operation as version n + 2;
            // A's second sync pulls it and applies it over an empty log
            assert(opt_seq(r.1) =~= seq![lop]);
            let v2 = v1.push(seq![lop]);
            assert(sb1 == (tb2, v2));
            assert(v2[n + 1] == seq![lop]);
            lemma_transform_fold_empty(lop);
            assert(seq![lop][0] == lop);
            assert(seq![lop].drop_first() =~= Seq::<Operation>::empty());
            let ta2 = apply_loose(ta, lop);
            assert(apply_server_op(ta, Seq::empty(), lop) == (
                ta2,
                Seq::<Operation>::empty(),
            ));
            assert(apply_version_ops(ta, Seq::<Operation>::empty(), seq![lop])
                == apply_version_ops(ta2, Seq::<Operation>::empty(), seq![lop].drop_first()));
            assert(apply_version_ops(ta, Seq::<Operation>::empty(), seq![lop]) == (
                ta2,
                Seq::<Operation>::empty(),
            ));
            assert(catch_up(ta, Seq::empty(), v2, n + 1) == catch_up(
                ta2,
                Seq::empty(),
                v2,
                n + 2,
            ));
            let sa2 = sync_spec(ta, Seq::empty(), n + 1, v2);
            assert(sa2 == (ta2, v2));
            assert(apply_opt(ta, r.1) == ta2);
            assert(sa2.0 =~~= sb1.0);
        },
    }
}

/// No data loss on disjoint properties: two replicas, synced on `t` with a
/// shared task `u`, each set a different property of it; after a mutual
/// sync both replicas hold both values.
#[verifier::rlimit(50)]
pub proof fn lemma_disjoint_updates_both_survive(
    t: TasksView,
    versions: Seq<Seq<Operation>>,
    u: Uuid,
    p1: String,
    v1: String,
    ts1: u64,
    p2: String,
    v2: String,
    ts2: u64,
)
    requires
        t.contains_key(u),
        p1@ != p2@,
    ensures
        ({
            let n = versions.len() as int;
            let opa = Operation::Update { uuid: u, property: p1, value: Some(v1), timestamp: ts1 };
            let opb = Operation::Update { uuid: u, property: p2, value: Some(v2), timestamp: ts2 };
            let sa1 = sync_spec(apply_op_tasks(t, opa), seq![opa], n, versions);
            let sb1 = sync_spec(apply_op_tasks(t, opb), seq![opb], sa1.1.len() as int - 1, sa1.1);
            let sa2 = sync_spec(sa1.0, Seq::empty(), sa1.1.len() as int, sb1.1);
            &&& sa2.0 =~~= sb1.0
            &&& sb1.0.contains_key(u)
            &&& sb1.0[u].contains_key(p1@)
            &&& sb1.0[u][p1@] == v1@
            &&& sb1.0[u].contains_key(p2@)
            &&& sb1.0[u][p2@] == v2@
        }),
{
    let opa = Operation::Update { uuid: u, property: p1, value: Some(v1), timestamp: ts1 };
    let opb = Operation::Update { uuid: u, property: p2, value: Some(v2), timestamp: ts2 };
    lemma_one_op_each_converges(t, versions, opa, opb);
    let n = versions.len() as int;
    let ta = apply_op_tasks(t, opa);
    let tb = apply_op_tasks(t, opb);
    let r = transform_spec(opa, opb);
    assert(r == (Some(opa), Some(opb)));

    // replay A's and B's syncs enough to name B's final task set
    assert(catch_up(ta, seq![opa], versions, n) == (ta, seq![opa]));
    let sa1 = sync_spec(ta, seq![opa], n, versions);
    let v1s = versions.push(seq![opa]);
    assert(sa1 == (ta, v1s));
    lemma_transform_fold_singleton(opa, opb);
    assert(v1s[n] == seq![opa]);
    assert(seq![opa][0] == opa);
    assert(seq![opa].drop_first() =~= Seq::<Operation>::empty());
    let tb2 = apply_opt(tb, r.0);
    assert(apply_server_op(tb, seq![opb], opa) == (tb2, opt_seq(r.1)));
    assert(apply_version_ops(tb, seq![opb], seq![opa]) == apply_version_ops(
        tb2,
        opt_seq(r.1),
        seq![opa].drop_first(),
    ));
    assert(apply_version_ops(tb, seq![opb], seq![opa]) == (tb2, opt_seq(r.1)));
    assert(catch_up(tb, seq![opb], v1s, n) == catch_up(tb2, opt_seq(r.1), v1s, n + 1));
    assert(catch_up(tb2, opt_seq(r.1), v1s, n + 1) == (tb2, opt_seq(r.1)));
    assert(catch_up(tb, seq![opb], v1s, n) == (tb2, opt_seq(r.1)));
    let sb1 = sync_spec(tb, seq![opb], n, v1s);
    assert(sb1.0 == tb2);

    // B's final task map for u holds both writes
    assert(op_valid(tb, opa));
    assert(tb2 == apply_op_tasks(tb, opa));
    assert(tb2[u] == t[u].insert(p2@, v2@).insert(p1@, v1@));
}

/// Last writer wins on the same property: two replicas, synced on `t` with
/// a shared task `u`, both set the same property; after a mutual sync both
/// hold the later-timestamped value, the first-pushed one on a tie.
#[verifier::rlimit(50)]
pub proof fn lemma_same_property_last_writer_wins(
    t: TasksView,
    versions: Seq<Seq<Operation>>,
    u: Uuid,
    p: String,
    p2: String,
    v1: String,
    ts1: u64,
    v2: String,
    ts2: u64,
)
    requires
        t.contains_key(u),
        p@ == p2@,
    ensures
        ({
            let n = versions.len() as int;
            let opa = Operation::Update { uuid: u, property: p, value: Some(v1), timestamp: ts1 };
            let opb = Operation::Update { uuid: u, property: p2, value: Some(v2), timestamp: ts2 };
            let sa1 = sync_spec(apply_op_tasks(t, opa), seq![opa], n, versions);
            let sb1 = sync_spec(apply_op_tasks(t, opb), seq![opb], sa1.1.len() as int - 1, sa1.1);
            let sa2 = sync_spec(sa1.0, Seq::empty(), sa1.1.len() as int, sb1.1);
            &&& sa2.0 =~~= sb1.0
            &&& sb1.0.contains_key(u)
            &&& sb1.0[u].contains_key(p@)
            &&& sb1.0[u][p@] == (if ts1 >= ts2 {
                v1@
            } else {
                v2@
            })
        }),
{
    let opa = Operation::Update { uuid: u, property: p, value: Some(v1), timestamp: ts1 };
    let opb = Operation::Update { uuid: u, property: p2, value: Some(v2), timestamp: ts2 };
    lemma_one_op_each_converges(t, versions, opa, opb);
    let n = versions.len() as int;
    let ta = apply_op_tasks(t, opa);
    let tb = apply_op_tasks(t, opb);
    let r = transform_spec(opa, opb);

    assert(catch_up(ta, seq![opa], versions, n) == (ta, seq![opa]));
    let sa1 = sync_spec(ta, seq![opa], n, versions);
    let v1s = versions.push(seq![opa]);
    assert(sa1 == (ta, v1s));
    lemma_transform_fold_singleton(opa, opb);
    assert(v1s[n] == seq![opa]);
    assert(seq![opa][0] == opa);
    assert(seq![opa].drop_first() =~= Seq::<Operation>::empty());
    let tb2 = apply_opt(tb, r.0);
    assert(apply_server_op(tb, seq![opb], opa) == (tb2, opt_seq(r.1)));
    assert(apply_version_ops(tb, seq![opb], seq![opa]) == apply_version_ops(
        tb2,
        opt_seq(r.1),
        seq![opa].drop_first(),
    ));
    assert(apply_version_ops(tb, seq![opb], seq![opa]) == (tb2, opt_seq(r.1)));
    assert(catch_up(tb, seq![opb], v1s, n) == catch_up(tb2, opt_seq(r.1), v1s, n + 1));
    assert(catch_up(tb2, opt_seq(r.1), v1s, n + 1) == (tb2, opt_seq(r.1)));
    assert(catch_up(tb, seq![opb], v1s, n) == (tb2, opt_seq(r.1)));
    let sb1 = sync_spec(tb, seq![opb], n, v1s);
    assert(sb1.0 == tb2);

    if ts1 >= ts2 {
        // the server's (first-pushed) write survives on B
        assert(r == (Some(opa), None::<Operation>));
        assert(op_valid(tb, opa));
        assert(tb2 == apply_op_tasks(tb, opa));
        assert(tb2[u] == t[u].insert(p@, v2@).insert(p@, v1@));
    } else {
        // the later local write survives; the server's is dropped
        assert(r == (None::<Operation>, Some(opb)));
        assert(tb2 == tb);
        assert(tb2[u] == t[u].insert(p@, v2@));
    }
}

} // verus!
