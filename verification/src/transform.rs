//! The pairwise operational transform, and its convergence guarantee.

use crate::model::{apply_loose, apply_op_tasks, apply_opt, op_valid, transform_spec, TasksView};
use crate::strings::str_eq;
use crate::types::{Operation, Uuid};
use vstd::prelude::*;

verus! {

/// The UUID an operation addresses.
pub fn uuid_of(op: &Operation) -> (r: Uuid)
    ensures
        r == op.target(),
{
    match op {
        Operation::Create { uuid } => *uuid,
        Operation::Delete { uuid } => *uuid,
        Operation::Update { uuid, .. } => *uuid,
    }
}

/// Transform the server operation `op1` against the pending local operation
/// `op2`, exactly as `transform_spec` resolves the pair.
pub fn transform(op1: Operation, op2: Operation) -> (r: (Option<Operation>, Option<Operation>))
    ensures
        r == transform_spec(op1, op2),
{
    let u1 = uuid_of(&op1);
    let u2 = uuid_of(&op2);
    if u1.v != u2.v {
        return (Some(op1), Some(op2));
    }
    match (op1, op2) {
        (Operation::Create { uuid }, Operation::Create { uuid: _u }) => (
            Some(Operation::Create { uuid }),
            None,
        ),
        (Operation::Create { uuid: _u }, Operation::Delete { uuid }) => (
            None,
            Some(Operation::Delete { uuid }),
        ),
        (Operation::Delete { uuid: _u }, Operation::Create { uuid }) => (
            None,
            Some(Operation::Create { uuid }),
        ),
        (Operation::Delete { uuid: _u }, Operation::Delete { uuid: _u2 }) => (None, None),
        (Operation::Update { uuid: _u, property: _p, value: _v, timestamp: _t },
            Operation::Delete { uuid }) => (None, Some(Operation::Delete { uuid })),
        (Operation::Delete { uuid },
            Operation::Update { uuid: _u, property: _p, value: _v, timestamp: _t }) => (
            Some(Operation::Delete { uuid }),
            None,
        ),
        (
            Operation::Update { uuid, property, value, timestamp },
            Operation::Update { uuid: uuid2, property: property2, value: value2, timestamp: timestamp2 },
        ) => {
            if str_eq(property.as_str(), property2.as_str()) {
                if timestamp >= timestamp2 {
                    (Some(Operation::Update { uuid, property, value, timestamp }), None)
                } else {
                    (
                        None,
                        Some(Operation::Update {
                            uuid: uuid2,
                            property: property2,
                            value: value2,
                            timestamp: timestamp2,
                        }),
                    )
                }
            } else {
                (
                    Some(Operation::Update { uuid, property, value, timestamp }),
                    Some(Operation::Update {
                        uuid: uuid2,
                        property: property2,
                        value: value2,
                        timestamp: timestamp2,
                    }),
                )
            }
        },
        (o1, o2) => (Some(o1), Some(o2)),
    }
}

/// Convergence of the pairwise transform. The local operation `op2` was
/// accepted on the common task set `t`; the server operation `op1` was too,
/// or is a creation that has been overtaken (the one way a server operation
/// still in play can fail to validate). Applying the local operation and
/// then the transformed server one reaches the same task set as applying
/// the server one and then the transformed local one. This is what makes
/// two replicas agree after exchanging their histories. Alongside, each
/// surviving operation is the one handed in, and a surviving local
/// operation still validates on the server's side of the fork.
#[verifier::rlimit(50)]
pub proof fn lemma_transform_convergent(t: TasksView, op1: Operation, op2: Operation)
    requires
        op1 is Create || op_valid(t, op1),
        op_valid(t, op2),
    ensures
        ({
            let r = transform_spec(op1, op2);
            &&& apply_opt(apply_loose(t, op2), r.0) =~~= apply_opt(apply_loose(t, op1), r.1)
            &&& (match r.0 {
                Some(o) => o == op1,
                None => true,
            })
            &&& (match r.1 {
                Some(o) => o == op2 && op_valid(apply_loose(t, op1), op2),
                None => true,
            })
        }),
{
    let r = transform_spec(op1, op2);
    let left = apply_opt(apply_loose(t, op2), r.0);
    let right = apply_opt(apply_loose(t, op1), r.1);
    if op1.target() != op2.target() {
        assert(left =~~= right);
    } else {
        match (op1, op2) {
            (Operation::Create { uuid }, Operation::Create { .. }) => {
                assert(left =~~= right);
            },
            (Operation::Create { uuid }, Operation::Delete { .. }) => {
                if op_valid(t, op1) {
                    // a valid creation and a deletion cannot both validate
                    assert(false);
                } else {
                    assert(left =~~= right);
                }
            },
            (Operation::Delete { .. }, Operation::Create { .. }) => {
                assert(false);
            },
            (Operation::Delete { uuid }, Operation::Delete { .. }) => {
                assert(left =~~= right);
            },
            (Operation::Update { uuid, .. }, Operation::Delete { .. }) => {
                assert(left =~~= right);
            },
            (Operation::Delete { uuid }, Operation::Update { .. }) => {
                assert(left =~~= right);
            },
            (Operation::Update { uuid, .. }, Operation::Update { .. }) => {
                assert(left =~~= right);
            },
            (Operation::Create { uuid }, Operation::Update { .. }) => {
                if op_valid(t, op1) {
                    assert(false);
                } else {
                    assert(left =~~= right);
                }
            },
            _ => {
                // an update cannot validate beside a valid creation
                assert(false);
            },
        }
    }
}

} // verus!
