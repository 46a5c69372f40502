use vstd::prelude::*;

use crate::engine::peer_progress::PeerProgress;
use crate::types::node::NodeId;
use crate::types::node_set::NodeSet;

verus! {

/// State carried in the Follower role: the current leader, learned from
/// any `AppendEntries` accepted in the current term, so the host can
/// redirect client proposals. `None` until a leader is heard from.
#[derive(Debug, Clone, Copy, Default)]
pub struct FollowerState {
    pub leader_id: Option<NodeId>,
}

/// State carried in the Candidate role (§5.2): which nodes granted us
/// their vote this term, self included. Set semantics make duplicate
/// grants harmless.
#[derive(Debug, Clone, Default)]
pub struct CandidateState {
    pub votes_granted: NodeSet,
}

/// State carried in the Leader role (§5.3 Figure 2).
#[derive(Debug, Clone, Default)]
pub struct LeaderState {
    pub progress: PeerProgress,
}

/// The Raft role. Every node is exactly one of these at any time.
#[derive(Debug, Clone)]
pub enum RoleState {
    Follower(FollowerState),
    Candidate(CandidateState),
    Leader(LeaderState),
}

} // verus!
