use vstd::prelude::*;

use crate::types::node::NodeId;
use crate::types::node_set::NodeSet;

verus! {

broadcast use vstd::seq_lib::group_seq_properties;

/// Cluster membership excluding the local node: the voters and the
/// learners. No node is both.
#[derive(Debug, Clone, PartialEq, Eq)]
pub struct Membership {
    voters: NodeSet,
    learners: NodeSet,
}

impl Membership {
    /// The voters.
    pub closed spec fn voter_set(self) -> Set<NodeId> {
        self.voters@
    }

    /// The learners.
    pub closed spec fn learner_set(self) -> Set<NodeId> {
        self.learners@
    }

    /// Well-formedness: both sets well-formed, and no node is both a voter
    /// and a learner.
    pub closed spec fn wf(self) -> bool {
        &&& self.voters.wf()
        &&& self.learners.wf()
        &&& self.voters@.disjoint(self.learners@)
    }

    /// Voters and learners never overlap.
    pub proof fn lemma_roles_exclusive(self, node: NodeId)
        requires
            self.wf(),
        ensures
            !(self.voter_set().contains(node) && self.learner_set().contains(node)),
            self.voter_set().finite(),
            self.learner_set().finite(),
    {
        self.voters.lemma_wf_no_duplicates();
        self.learners.lemma_wf_no_duplicates();
    }

    /// The membership with the given voters and learners; a node listed as
    /// both is a voter only.
    pub fn new(voters: Vec<NodeId>, learners: Vec<NodeId>) -> (r: Membership)
        ensures
            r.wf(),
            r.voter_set() == voters@.to_set(),
            r.learner_set() == learners@.to_set().difference(voters@.to_set()),
    {
        let voters = NodeSet::from_vec(voters);
        let mut learners = NodeSet::from_vec(learners);
        let members = voters.as_slice();
        let ghost learners0 = learners@;
        let mut k: usize = 0;
        while k < members.len()
            invariant
                k <= members@.len(),
                members@ == voters.elems(),
                learners.wf(),
                learners@ == learners0.difference(members@.take(k as int).to_set()),
            decreases members@.len() - k,
        {
            learners.remove(&members[k]);
            assert(members@.take(k + 1) == members@.take(k as int).push(members@[k as int]));
            assert(members@.take(k + 1).to_set() =~= members@.take(k as int).to_set().insert(
                members@[k as int],
            ));
            assert(learners0.difference(members@.take(k + 1).to_set()) =~= learners0.difference(
                members@.take(k as int).to_set(),
            ).remove(members@[k as int]));
            k = k + 1;
        }
        assert(members@.take(k as int) == members@);
        let r = Membership { voters, learners };
        assert(r.voters@.disjoint(r.learners@));
        r
    }

    /// The membership with the given voters and no learner.
    pub fn with_voters(voters: Vec<NodeId>) -> (r: Membership)
        ensures
            r.wf(),
            r.voter_set() == voters@.to_set(),
            r.learner_set() == Set::<NodeId>::empty(),
    {
        let r = Membership::new(voters, Vec::new());
        assert(r.learner_set() =~= Set::<NodeId>::empty());
        r
    }

    /// The voters, in ascending order of id.
    pub fn voters(&self) -> (r: &NodeSet)
        requires
            self.wf(),
        ensures
            r.wf(),
            r@ == self.voter_set(),
    {
        &self.voters
    }

    /// The learners, in ascending order of id.
    pub fn learners(&self) -> (r: &NodeSet)
        requires
            self.wf(),
        ensures
            r.wf(),
            r@ == self.learner_set(),
    {
        &self.learners
    }

    /// Number of voters.
    pub fn voter_count(&self) -> (r: usize)
        requires
            self.wf(),
        ensures
            r == self.voter_set().len(),
    {
        self.voters.len()
    }

    /// Whether `node` is a voter.
    pub fn contains_voter(&self, node: &NodeId) -> (r: bool)
        requires
            self.wf(),
        ensures
            r == self.voter_set().contains(*node),
    {
        self.voters.contains(node)
    }

    /// Whether `node` is a learner.
    pub fn contains_learner(&self, node: &NodeId) -> (r: bool)
        requires
            self.wf(),
        ensures
            r == self.learner_set().contains(*node),
    {
        self.learners.contains(node)
    }

    /// Whether `node` is a voter or a learner.
    pub fn contains_member(&self, node: &NodeId) -> (r: bool)
        requires
            self.wf(),
        ensures
            r == (self.voter_set().contains(*node) || self.learner_set().contains(*node)),
    {
        self.contains_voter(node) || self.contains_learner(node)
    }

    /// Make `node` a voter, promoting it if it was a learner.
    pub fn add_voter(&mut self, node: NodeId)
        requires
            old(self).wf(),
        ensures
            final(self).wf(),
            final(self).voter_set() == old(self).voter_set().insert(node),
            final(self).learner_set() == old(self).learner_set().remove(node),
    {
        self.learners.remove(&node);
        self.voters.insert(node);
    }

    /// Drop `node` from the voters.
    pub fn remove_voter(&mut self, node: NodeId)
        requires
            old(self).wf(),
        ensures
            final(self).wf(),
            final(self).voter_set() == old(self).voter_set().remove(node),
            final(self).learner_set() == old(self).learner_set(),
    {
        self.voters.remove(&node);
    }

    /// Make `node` a learner, unless it is a voter (then nothing changes).
    pub fn add_learner(&mut self, node: NodeId)
        requires
            old(self).wf(),
        ensures
            final(self).wf(),
            final(self).voter_set() == old(self).voter_set(),
            final(self).learner_set() == if old(self).voter_set().contains(node) {
                old(self).learner_set()
            } else {
                old(self).learner_set().insert(node)
            },
    {
        if !self.voters.contains(&node) {
            self.learners.insert(node);
        }
    }

    /// Drop `node` from the learners.
    pub fn remove_learner(&mut self, node: NodeId)
        requires
            old(self).wf(),
        ensures
            final(self).wf(),
            final(self).voter_set() == old(self).voter_set(),
            final(self).learner_set() == old(self).learner_set().remove(node),
    {
        self.learners.remove(&node);
    }
}

impl Default for Membership {
    /// No voters and no learners.
    fn default() -> (r: Self)
        ensures
            r.wf(),
            r.voter_set() == Set::<NodeId>::empty(),
            r.learner_set() == Set::<NodeId>::empty(),
    {
        Membership { voters: NodeSet::new(), learners: NodeSet::new() }
    }
}

} // verus!
