use vstd::prelude::*;

use crate::types::index::LogIndex;
use crate::types::node::NodeId;

verus! {

/// A leader's replication bookkeeping for one peer (Figure 2): the next
/// index to send it and the highest index known to match.
#[derive(Debug, Clone, Copy, PartialEq, Eq, Structural)]
pub struct PeerReplication {
    pub peer: NodeId,
    pub next_index: LogIndex,
    pub match_index: LogIndex,
}

/// Per-peer `nextIndex` / `matchIndex` for every other node in the cluster.
#[derive(Debug, Clone, Default)]
pub struct PeerProgress {
    pub peers: Vec<PeerReplication>,
}

} // verus!
