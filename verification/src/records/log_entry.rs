use vstd::prelude::*;

use crate::types::log_id::LogId;
use crate::types::node::NodeId;

verus! {

/// A single entry in the replicated log: an application command tagged
/// with its position and the term in which a leader assigned it.
///
/// Once committed, every node in the cluster sees the exact same
/// sequence of entries with the exact same `id`s. The `command` is
/// opaque to the consensus layer.
#[derive(Debug, PartialEq, Eq)]
pub struct LogEntry<C> {
    /// Position and term assigned by the leader that first appended this
    /// entry (§5.3 Log Matching).
    pub id: LogId,
    /// The application-defined command this entry carries.
    pub command: C,
}

impl<C: Clone> Clone for LogEntry<C> {
    /// A copy with the same id and a clone of the command.
    fn clone(&self) -> (r: Self)
        ensures
            r.id == self.id,
            cloned(self.command, r.command),
    {
        LogEntry { id: self.id, command: self.command.clone() }
    }
}

} // verus!

verus! {

/// What an entry carries: either the no-op a new leader appends at the
/// start of its term, or an application command.
#[derive(Debug, Clone, PartialEq, Eq)]
pub enum LogPayload<C> {
    Noop,
    Command(C),
}

/// An operator-initiated single-server membership change (§4.3).
#[derive(Debug, Clone, Copy, PartialEq, Eq, Structural)]
pub enum ConfigChange {
    AddVoter(NodeId),
    RemoveVoter(NodeId),
}

} // verus!
