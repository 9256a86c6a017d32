//! Per-participant session state kept by the coordinator.

use vstd::prelude::*;

verus! {

/// The kind of coordinated operation a participant takes part in, inferred
/// from the first action it announces.
#[derive(Clone, Copy, Debug, PartialEq, Eq, Structural)]
pub enum Operation {
    Dump,
    Restore,
}

/// Session state of one participant, as the coordinator tracks it.
///
/// Every flag only ever moves from `false` to `true` during a session, and
/// the whole record is dropped when a terminal action completes.
#[derive(Clone, Copy, Debug)]
pub struct ClientStatus {
    /// Set when the participant's first connection is accepted.
    pub connected: bool,
    /// Whether a connection for this id is open right now.  A later hook
    /// of the same operation reuses the entry; only a concurrent duplicate
    /// is turned away.
    pub active: bool,
    /// Set once the participant has seen all its dependencies connect.
    pub ready: bool,
    /// Set once the participant's local checkpoint is on disk.
    pub local_checkpoint: bool,
    /// Mirrors the optional network-lock hook.
    pub network_locked: bool,
    /// Mirrors the optional network-unlock hook.
    pub network_unlocked: bool,
    /// The operation this session belongs to.
    pub operation: Operation,
}

impl ClientStatus {
    /// Well-formedness: a participant can be ready only once it is
    /// connected, and a local checkpoint can exist only for a dump.
    pub open spec fn wf(self) -> bool {
        &&& self.ready ==> self.connected
        &&& self.local_checkpoint ==> self.operation == Operation::Dump
    }

    /// A fresh session record: connected and active, with every other
    /// flag clear.
    pub fn new(operation: Operation) -> (s: ClientStatus)
        ensures
            s.connected,
            s.active,
            !s.ready,
            !s.local_checkpoint,
            !s.network_locked,
            !s.network_unlocked,
            s.operation == operation,
            s.wf(),
    {
        ClientStatus {
            connected: true,
            active: true,
            ready: false,
            local_checkpoint: false,
            network_locked: false,
            network_unlocked: false,
            operation,
        }
    }

    pub fn is_connected(&self) -> (r: bool)
        ensures
            r == self.connected,
    {
        self.connected
    }

    pub fn is_ready(&self) -> (r: bool)
        ensures
            r == self.ready,
    {
        self.ready
    }

    pub fn set_ready(&mut self, value: bool)
        requires
            value ==> old(self).connected,
        ensures
            *final(self) == (ClientStatus { ready: value, ..*old(self) }),
            old(self).wf() ==> final(self).wf(),
    {
        self.ready = value;
    }

    /// Records that the local checkpoint exists.  Only a dump session may
    /// carry the flag.
    pub fn set_local_checkpoint(&mut self)
        requires
            old(self).operation == Operation::Dump,
        ensures
            *final(self) == (ClientStatus { local_checkpoint: true, ..*old(self) }),
            old(self).wf() ==> final(self).wf(),
    {
        self.local_checkpoint = true;
    }

    pub fn has_local_checkpoint(&self) -> (r: bool)
        ensures
            r == self.local_checkpoint,
    {
        self.local_checkpoint
    }

    pub fn is_network_locked(&self) -> (r: bool)
        ensures
            r == self.network_locked,
    {
        self.network_locked
    }

    pub fn set_network_locked(&mut self)
        ensures
            *final(self) == (ClientStatus { network_locked: true, ..*old(self) }),
            old(self).wf() ==> final(self).wf(),
    {
        self.network_locked = true;
    }

    pub fn is_network_unlocked(&self) -> (r: bool)
        ensures
            r == self.network_unlocked,
    {
        self.network_unlocked
    }

    pub fn set_network_unlocked(&mut self)
        ensures
            *final(self) == (ClientStatus { network_unlocked: true, ..*old(self) }),
            old(self).wf() ==> final(self).wf(),
    {
        self.network_unlocked = true;
    }

    pub fn get_operation(&self) -> (r: Operation)
        ensures
            r == self.operation,
    {
        self.operation
    }
}

} // verus!
