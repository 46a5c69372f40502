use vstd::prelude::*;

verus! {

/// Identifier of a cluster member. Zero is reserved and never names a
/// node, so a `NodeId` always holds a non-zero value.
#[derive(Debug, Clone, Copy, PartialEq, Eq, Structural, PartialOrd, Ord, Hash)]
pub struct NodeId(u64);

impl View for NodeId {
    type V = u64;

    closed spec fn view(&self) -> u64 {
        self.0
    }
}

impl NodeId {
    #[verifier::type_invariant]
    spec fn nonzero(self) -> bool {
        self.0 != 0
    }

    /// Wrap a raw id; `None` for the reserved value zero.
    pub fn new(value: u64) -> (r: Option<NodeId>)
        ensures
            value == 0 <==> r is None,
            r matches Some(id) ==> id@ == value,
    {
        if value == 0 {
            None
        } else {
            Some(NodeId(value))
        }
    }

    /// The raw, non-zero id.
    pub fn get(self) -> (r: u64)
        ensures
            r == self@,
            r != 0,
    {
        proof {
            use_type_invariant(&self);
        }
        self.0
    }

    /// Two ids are the same node exactly when their raw values agree.
    pub proof fn lemma_view_injective(a: NodeId, b: NodeId)
        ensures
            (a@ == b@) <==> a == b,
    {
    }
}

} // verus!
