//! The append-only server: a strictly ordered version log with
//! optimistic-append semantics.
//!
//! Version `n` sits at index `n - 1`; a replica may append version
//! `len + 1` and nothing else. The identity argument names the log to use;
//! this server keeps a single log and serves it to every caller.

use crate::types::Operation;
use vstd::prelude::*;

verus! {

/// A numbered batch of operations, the unit exchanged with the server.
pub struct Version {
    pub version: u64,
    pub operations: Vec<Operation>,
}

impl Clone for Version {
    /// A clone carries the same number and the same operations.
    fn clone(&self) -> (res: Self)
        ensures
            res.version == self.version,
            res.operations@ == self.operations@,
    {
        let n = self.operations.len();
        let mut operations: Vec<Operation> = Vec::new();
        let mut i: usize = 0;
        while i < n
            invariant
                0 <= i <= n,
                n == self.operations@.len(),
                operations@ =~= self.operations@.take(i as int),
            decreases n - i,
        {
            operations.push(self.operations[i].clone());
            proof {
                assert(operations@ =~= self.operations@.take(i + 1));
            }
            i = i + 1;
        }
        proof {
            assert(operations@ =~= self.operations@);
        }
        Version { version: self.version, operations }
    }
}

/// The answer to an optimistic append.
#[derive(Clone, Copy, PartialEq, Eq, Structural, Debug)]
pub enum VersionAdd {
    Accepted,
    Conflict,
}

/// The version log.
pub struct Server {
    pub versions: Vec<Version>,
}

impl Server {
    /// Version numbers are exactly the positions, starting at 1.
    pub open spec fn wf(&self) -> bool {
        forall|i: int| 0 <= i < self.versions@.len() ==> (#[trigger] self.versions@[i]).version
            == i + 1
    }

    /// The log as the sequence of each version's operations.
    pub open spec fn log_view(&self) -> Seq<Seq<Operation>> {
        Seq::new(self.versions@.len(), |i: int| self.versions@[i].operations@)
    }

    /// An empty log.
    pub fn new() -> (r: Server)
        ensures
            r.wf(),
            r.versions@.len() == 0,
            r.log_view() =~= Seq::<Seq<Operation>>::empty(),
    {
        Server { versions: Vec::new() }
    }

    /// Every version strictly after `after`, in order.
    pub fn get_versions(&self, identity: &str, after: u64) -> (r: Vec<Version>)
        ensures
            r@.len() == if after < self.versions@.len() {
                self.versions@.len() - after
            } else {
                0int
            },
            forall|i: int| 0 <= i < r@.len() ==> (#[trigger] r@[i]).version == self.versions@[
                after + i
            ].version,
            forall|i: int| 0 <= i < r@.len() ==> (#[trigger] r@[i]).operations@ == self.versions@[
                after + i
            ].operations@,
    {
        let _ = identity;
        let n = self.versions.len();
        let mut r: Vec<Version> = Vec::new();
        if after >= n as u64 {
            return r;
        }
        let mut i: usize = after as usize;
        while i < n
            invariant
                after <= i <= n,
                n == self.versions@.len(),
                r@.len() == i - after,
                forall|j: int| 0 <= j < r@.len() ==> (#[trigger] r@[j]).version == self.versions@[
                    after + j
                ].version,
                forall|j: int| 0 <= j < r@.len() ==> (#[trigger] r@[j]).operations@
                    == self.versions@[after + j].operations@,
            decreases n - i,
        {
            r.push(self.versions[i].clone());
            i = i + 1;
        }
        r
    }

    /// Optimistically append: version `len + 1` is accepted, anything else
    /// conflicts and changes nothing.
    pub fn add_version(&mut self, identity: &str, version: Version) -> (r: VersionAdd)
        requires
            old(self).wf(),
            old(self).versions@.len() < 0xffff_ffff_ffff_ffff,
        ensures
            final(self).wf(),
            version.version == old(self).versions@.len() + 1 ==> {
                &&& r is Accepted
                &&& final(self).versions@ == old(self).versions@.push(version)
                &&& final(self).log_view() =~= old(self).log_view().push(version.operations@)
            },
            version.version != old(self).versions@.len() + 1 ==> {
                &&& r is Conflict
                &&& *final(self) == *old(self)
            },
    {
        let _ = identity;
        let n = self.versions.len();
        if version.version == (n as u64) + 1 {
            self.versions.push(version);
            proof {
                assert(final(self).log_view() =~= old(self).log_view().push(
                    version.operations@,
                ));
            }
            VersionAdd::Accepted
        } else {
            VersionAdd::Conflict
        }
    }
}

} // verus!
