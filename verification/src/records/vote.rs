use vstd::prelude::*;

use crate::types::log_id::LogId;
use crate::types::node::NodeId;
use crate::types::term::Term;

verus! {

/// A candidate asking for a vote (§5.2).
#[derive(Debug, Clone, Copy, PartialEq, Eq, Structural)]
pub struct RequestVote {
    pub term: Term,
    pub candidate_id: NodeId,
    /// The candidate's last log id, `None` when its log has no history.
    pub last_log_id: Option<LogId>,
}

/// The answer to a [`RequestVote`].
#[derive(Debug, Clone, Copy, PartialEq, Eq, Structural)]
pub struct VoteResponse {
    pub term: Term,
    pub vote_granted: bool,
}

} // verus!
