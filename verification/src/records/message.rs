use vstd::prelude::*;

use crate::records::append_entries::{AppendEntriesResponse, RequestAppendEntries};
use crate::records::vote::{RequestVote, VoteResponse};

verus! {

/// All inter-node messages the engine speaks. The four variants form two
/// request/response pairs:
///  - `VoteRequest` / `VoteResponse` — leader election (§5.2);
///  - `AppendEntriesRequest` / `AppendEntriesResponse` — log replication,
///    heartbeats, and commit-index propagation (§5.3).
#[derive(Debug, Clone, PartialEq, Eq)]
pub enum Message<C> {
    /// A candidate is asking for our vote.
    VoteRequest(RequestVote),
    /// Reply to one of our outgoing `VoteRequest`s.
    VoteResponse(VoteResponse),
    /// A leader is replicating entries (or sending a heartbeat).
    AppendEntriesRequest(RequestAppendEntries<C>),
    /// Reply to one of our outgoing `AppendEntriesRequest`s.
    AppendEntriesResponse(AppendEntriesResponse),
}

} // verus!
