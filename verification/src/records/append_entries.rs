use vstd::prelude::*;

use crate::records::log_entry::LogEntry;
use crate::types::index::LogIndex;
use crate::types::log_id::LogId;
use crate::types::node::NodeId;
use crate::types::term::Term;

verus! {

/// A leader replicating entries, or sending a heartbeat when `entries` is
/// empty (§5.3).
#[derive(Debug, Clone, PartialEq, Eq)]
pub struct RequestAppendEntries<C> {
    pub term: Term,
    pub leader_id: NodeId,
    /// Id of the entry right before `entries`; `None` when they start the log.
    pub prev_log_id: Option<LogId>,
    pub entries: Vec<LogEntry<C>>,
    pub leader_commit: LogIndex,
}

/// Outcome of an `AppendEntries` on the follower.
#[derive(Debug, Clone, Copy, PartialEq, Eq, Structural)]
pub enum AppendEntriesResult {
    /// The entries were accepted; `last_appended` is the last index now
    /// matching the leader, if any.
    Success { last_appended: Option<LogIndex> },
    /// `prev_log_id` did not match; the leader should retry from the hint.
    Conflict { next_index_hint: LogIndex },
}

/// The answer to a [`RequestAppendEntries`].
#[derive(Debug, Clone, Copy, PartialEq, Eq, Structural)]
pub struct AppendEntriesResponse {
    pub term: Term,
    pub result: AppendEntriesResult,
}

} // verus!
