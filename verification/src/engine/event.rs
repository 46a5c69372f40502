use vstd::prelude::*;

use crate::records::log_entry::ConfigChange;
use crate::records::message::Message;
use crate::types::index::LogIndex;
use crate::types::node::NodeId;

verus! {

/// A message from a peer, tagged with its sender.
#[derive(Debug, Clone, PartialEq, Eq)]
pub struct Incoming<C> {
    pub from: NodeId,
    pub message: Message<C>,
}

/// The single input type the engine accepts.
///
/// The four sources of forward motion in Raft, funneled through one
/// dispatch: the abstract clock fires (`Tick`), a peer's RPC arrives
/// (`Incoming`), the application submits a command (`ClientProposal`), or
/// an operator asks for a membership change (`ProposeConfigChange`); plus
/// the host reporting a fresh snapshot (`SnapshotTaken`).
#[derive(Debug, Clone, PartialEq, Eq)]
pub enum Event<C> {
    /// One unit of abstract time has elapsed.
    Tick,
    /// A peer sent us an RPC.
    Incoming(Incoming<C>),
    /// The local application is asking us to replicate a command.
    ClientProposal(C),
    /// Operator-initiated single-server membership change (§4.3).
    ProposeConfigChange(ConfigChange),
    /// The host has produced a snapshot of everything applied up to
    /// `last_included_index`. Refused (silently) when that index is past
    /// the commit index.
    SnapshotTaken { last_included_index: LogIndex, bytes: Vec<u8> },
}

} // verus!
