use vstd::prelude::*;

use crate::types::node::NodeId;

verus! {

broadcast use vstd::seq_lib::group_seq_properties;

/// An ordered set of node ids: each id at most once, iterated in
/// ascending order.
#[derive(Debug, Clone, PartialEq, Eq)]
pub struct NodeSet {
    nodes: Vec<NodeId>,
}

impl View for NodeSet {
    type V = Set<NodeId>;

    open spec fn view(&self) -> Set<NodeId> {
        self.elems().to_set()
    }
}

impl NodeSet {
    /// The members, in ascending order of id.
    pub closed spec fn elems(self) -> Seq<NodeId> {
        self.nodes@
    }

    /// Ids strictly increase along the members.
    pub open spec fn wf(self) -> bool {
        forall|i: int, j: int|
            0 <= i < j < self.elems().len() ==> (#[trigger] self.elems()[i])@ < (
            #[trigger] self.elems()[j])@
    }

    /// A well-formed set has as many members as listed ids, and is finite.
    pub proof fn lemma_wf_no_duplicates(self)
        requires
            self.wf(),
        ensures
            self.elems().no_duplicates(),
            self@.len() == self.elems().len(),
            self@.finite(),
    {
        assert forall|i: int, j: int|
            0 <= i < self.elems().len() && 0 <= j < self.elems().len() && i != j implies self.elems()[i]
            != self.elems()[j] by {
            if i < j {
                assert(self.elems()[i]@ < self.elems()[j]@);
            } else {
                assert(self.elems()[j]@ < self.elems()[i]@);
            }
        }
        self.elems().unique_seq_to_set();
    }

    /// The empty set.
    pub fn new() -> (r: NodeSet)
        ensures
            r.wf(),
            r@ == Set::<NodeId>::empty(),
    {
        let r = NodeSet { nodes: Vec::new() };
        assert(r@ =~= Set::<NodeId>::empty());
        r
    }

    /// The set of the ids in `nodes`, duplicates collapsed.
    pub fn from_vec(nodes: Vec<NodeId>) -> (r: NodeSet)
        ensures
            r.wf(),
            r@ == nodes@.to_set(),
    {
        let mut r = NodeSet::new();
        let mut k: usize = 0;
        while k < nodes.len()
            invariant
                k <= nodes@.len(),
                r.wf(),
                r@ == nodes@.take(k as int).to_set(),
            decreases nodes@.len() - k,
        {
            r.insert(nodes[k]);
            assert(nodes@.take(k + 1) == nodes@.take(k as int).push(nodes@[k as int]));
            assert(nodes@.take(k + 1).to_set() =~= nodes@.take(k as int).to_set().insert(
                nodes@[k as int],
            ));
            k = k + 1;
        }
        assert(nodes@.take(k as int) == nodes@);
        r
    }

    /// The members in ascending order of id.
    pub fn as_slice(&self) -> (r: &[NodeId])
        ensures
            r@ == self.elems(),
    {
        self.nodes.as_slice()
    }

    /// Number of members.
    pub fn len(&self) -> (r: usize)
        requires
            self.wf(),
        ensures
            r == self@.len(),
    {
        proof {
            self.lemma_wf_no_duplicates();
        }
        self.nodes.len()
    }

    /// Whether the set has no member.
    pub fn is_empty(&self) -> (r: bool)
        requires
            self.wf(),
        ensures
            r <==> self@.is_empty(),
    {
        proof {
            self.lemma_wf_no_duplicates();
            if self@.len() == 0 {
                assert(self@ =~= Set::<NodeId>::empty());
            } else if self@.is_empty() {
                assert(self@.contains(self.elems()[0]));
            }
        }
        self.nodes.len() == 0
    }

    /// Position of the first member whose id is not below `node`'s, and
    /// whether that member is `node` itself.
    fn search(&self, node: NodeId) -> (r: (usize, bool))
        requires
            self.wf(),
        ensures
            r.0 <= self.elems().len(),
            forall|i: int| 0 <= i < r.0 ==> (#[trigger] self.elems()[i])@ < node@,
            r.0 < self.elems().len() ==> node@ <= self.elems()[r.0 as int]@,
            r.1 <==> (r.0 < self.elems().len() && self.elems()[r.0 as int] == node),
            r.1 <==> self@.contains(node),
    {
        let mut k: usize = 0;
        while k < self.nodes.len()
            invariant
                self.wf(),
                k <= self.elems().len(),
                forall|i: int| 0 <= i < k ==> (#[trigger] self.elems()[i])@ < node@,
            decreases self.elems().len() - k,
        {
            if self.nodes[k].get() >= node.get() {
                let found = self.nodes[k].get() == node.get();
                proof {
                    NodeId::lemma_view_injective(self.elems()[k as int], node);
                    if !found && self.elems().contains(node) {
                        let j = choose|j: int| 0 <= j < self.elems().len() && self.elems()[j] == node;
                        if j > k {
                            assert(self.elems()[k as int]@ < self.elems()[j]@);
                        }
                    }
                }
                return (k, found);
            }
            k = k + 1;
        }
        proof {
            if self.elems().contains(node) {
                let j = choose|j: int| 0 <= j < self.elems().len() && self.elems()[j] == node;
                assert(self.elems()[j]@ < node@);
            }
        }
        (k, false)
    }

    /// Whether `node` is a member.
    pub fn contains(&self, node: &NodeId) -> (r: bool)
        requires
            self.wf(),
        ensures
            r == self@.contains(*node),
    {
        let (_, found) = self.search(*node);
        found
    }

    /// Add `node`; returns whether it was not a member before.
    pub fn insert(&mut self, node: NodeId) -> (r: bool)
        requires
            old(self).wf(),
        ensures
            final(self).wf(),
            final(self)@ == old(self)@.insert(node),
            r == !old(self)@.contains(node),
    {
        let (pos, found) = self.search(node);
        if found {
            assert(self@.insert(node) =~= self@);
            return false;
        }
        let ghost before = self.elems();
        self.nodes.insert(pos, node);
        proof {
            let after = self.elems();
            assert(after == before.insert(pos as int, node));
            assert forall|i: int, j: int| 0 <= i < j < after.len() implies (#[trigger] after[i])@ < (
            #[trigger] after[j])@ by {
                if pos < before.len() && node == before[pos as int] {
                }
                if j < pos {
                    assert(after[i] == before[i] && after[j] == before[j]);
                } else if j == pos {
                    assert(after[i] == before[i]);
                } else if i < pos {
                    assert(after[i] == before[i] && after[j] == before[j - 1]);
                    assert(before[i]@ < node@);
                    assert(node@ <= before[pos as int]@);
                    if j - 1 > pos {
                        assert(before[pos as int]@ < before[j - 1]@);
                    }
                } else if i == pos {
                    assert(after[j] == before[j - 1]);
                    assert(node@ <= before[pos as int]@);
                    if j - 1 > pos {
                        assert(before[pos as int]@ < before[j - 1]@);
                    }
                    NodeId::lemma_view_injective(node, before[pos as int]);
                } else {
                    assert(after[i] == before[i - 1] && after[j] == before[j - 1]);
                }
            }
            assert(self@ =~= old(self)@.insert(node)) by {
                assert forall|n: NodeId| self@.contains(n) <==> old(self)@.insert(node).contains(
                    n,
                ) by {
                    if before.contains(n) {
                        let j = choose|j: int| 0 <= j < before.len() && before[j] == n;
                        if j < pos {
                            assert(after[j] == n);
                        } else {
                            assert(after[j + 1] == n);
                        }
                    }
                    if after.contains(n) {
                        let j = choose|j: int| 0 <= j < after.len() && after[j] == n;
                        if j < pos {
                            assert(before[j] == n);
                        } else if j > pos {
                            assert(before[j - 1] == n);
                        }
                    }
                    assert(after[pos as int] == node);
                }
            }
        }
        true
    }

    /// Remove `node`; returns whether it was a member.
    pub fn remove(&mut self, node: &NodeId) -> (r: bool)
        requires
            old(self).wf(),
        ensures
            final(self).wf(),
            final(self)@ == old(self)@.remove(*node),
            r == old(self)@.contains(*node),
    {
        let (pos, found) = self.search(*node);
        if !found {
            assert(self@.remove(*node) =~= self@);
            return false;
        }
        let ghost before = self.elems();
        self.nodes.remove(pos);
        proof {
            let after = self.elems();
            assert(after == before.remove(pos as int));
            assert forall|i: int, j: int| 0 <= i < j < after.len() implies (#[trigger] after[i])@ < (
            #[trigger] after[j])@ by {
                if j < pos {
                    assert(after[i] == before[i] && after[j] == before[j]);
                } else if i < pos {
                    assert(after[i] == before[i] && after[j] == before[j + 1]);
                } else {
                    assert(after[i] == before[i + 1] && after[j] == before[j + 1]);
                }
            }
            assert(self@ =~= old(self)@.remove(*node)) by {
                assert forall|n: NodeId| self@.contains(n) <==> old(self)@.remove(*node).contains(
                    n,
                ) by {
                    if after.contains(n) {
                        let j = choose|j: int| 0 <= j < after.len() && after[j] == n;
                        if j < pos {
                            assert(before[j] == n);
                            assert(before[j]@ < node@);
                        } else {
                            assert(before[j + 1] == n);
                            assert(before[pos as int]@ < before[j + 1]@);
                        }
                    }
                    if before.contains(n) && n != *node {
                        let j = choose|j: int| 0 <= j < before.len() && before[j] == n;
                        if j < pos {
                            assert(after[j] == n);
                        } else {
                            assert(j != pos);
                            assert(after[j - 1] == n);
                        }
                    }
                }
            }
        }
        true
    }
}

impl Default for NodeSet {
    /// The empty set.
    fn default() -> (r: Self)
        ensures
            r.wf(),
            r@ == Set::<NodeId>::empty(),
    {
        NodeSet::new()
    }
}

} // verus!
