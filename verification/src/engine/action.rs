use vstd::prelude::*;

use crate::records::log_entry::LogEntry;
use crate::records::message::Message;
use crate::types::index::LogIndex;
use crate::types::node::NodeId;
use crate::types::term::Term;

verus! {

/// The engine's only output, in vector form per step.
///
/// The engine never performs I/O directly. Every effect it wants the host
/// to carry out becomes an `Action`, which the host fulfils however it
/// likes — sockets, async runtimes, in-memory simulators.
#[derive(Debug, Clone, PartialEq, Eq)]
pub enum Action<C> {
    /// Durably record `current_term` and `voted_for` before any later
    /// `Send` of the same step goes out.
    PersistHardState { current_term: Term, voted_for: Option<NodeId> },
    /// Durably append these entries before any later `Send` of the same
    /// step that carries them.
    PersistLogEntries(Vec<LogEntry<C>>),
    /// Durably record a snapshot covering everything up to
    /// `last_included_index`.
    PersistSnapshot { last_included_index: LogIndex, last_included_term: Term, bytes: Vec<u8> },
    /// Send `message` to peer `to`.
    Send { to: NodeId, message: Message<C> },
    /// These entries (in index order, contiguous, all newly committed) are
    /// now safe to feed to the application state machine.
    Apply(Vec<LogEntry<C>>),
    /// A client proposal landed on a non-leader; retarget the client at
    /// this peer.
    Redirect { leader_hint: NodeId },
}

} // verus!
