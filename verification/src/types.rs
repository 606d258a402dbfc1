//! The basic data of the store: task identifiers, operations, and errors.

use vstd::prelude::*;

verus! {

/// A task identifier: a 128-bit UUID, held as its integer value.
///
/// Only the integer value matters to the store's logic (equality picks out a
/// task, and the numeric order keeps the task table canonical); rendering
/// and random generation live outside the core.
#[derive(Clone, Copy, PartialEq, Eq, Structural, Debug, Hash)]
pub struct Uuid {
    pub v: u128,
}

impl Uuid {
    pub fn new(v: u128) -> (r: Uuid)
        ensures
            r.v == v,
    {
        Uuid { v }
    }
}

impl View for Uuid {
    type V = Uuid;

    open spec fn view(&self) -> Uuid {
        *self
    }
}

/// An atomic, immutable mutation record.
///
/// `Update` carries a timestamp (seconds, or any fixed monotone scale shared
/// by all replicas) used only for last-writer-wins tie-breaking during
/// synchronization; it is never stored as task content. An `Update` with
/// `value == None` deletes the property.
#[derive(Debug, PartialEq, Eq)]
pub enum Operation {
    Create { uuid: Uuid },
    Delete { uuid: Uuid },
    Update { uuid: Uuid, property: String, value: Option<String>, timestamp: u64 },
}

impl Operation {
    /// The task this operation is about.
    pub open spec fn target(self) -> Uuid {
        match self {
            Operation::Create { uuid } => uuid,
            Operation::Delete { uuid } => uuid,
            Operation::Update { uuid, .. } => uuid,
        }
    }
}

impl Clone for Operation {
    /// A clone is the very same operation.
    fn clone(&self) -> (res: Self)
        ensures
            res == *self,
    {
        match self {
            Operation::Create { uuid } => Operation::Create { uuid: *uuid },
            Operation::Delete { uuid } => Operation::Delete { uuid: *uuid },
            Operation::Update { uuid, property, value, timestamp } => Operation::Update {
                uuid: *uuid,
                property: property.clone(),
                value: match value {
                    Some(v) => Some(v.clone()),
                    None => None,
                },
                timestamp: *timestamp,
            },
        }
    }
}

/// Why a mutation was rejected: the closed taxonomy of validation failures.
///
/// `CreateExists`: a `Create` for a UUID that is already present.
/// `DoesNotExist`: a `Delete` or `Update` for a UUID that is absent.
#[derive(Clone, Copy, PartialEq, Eq, Structural, Debug)]
pub enum Error {
    CreateExists { uuid: Uuid },
    DoesNotExist { uuid: Uuid },
}

} // verus!
