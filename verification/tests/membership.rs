use jotun::records::membership::Membership;
use jotun::types::node::NodeId;
use jotun::types::node_set::NodeSet;

fn node(id: u64) -> NodeId {
    NodeId::new(id).unwrap()
}

#[test]
fn voter_membership_starts_without_learners() {
    let membership = Membership::with_voters(vec![node(2), node(3)]);
    assert!(membership.contains_voter(&node(2)));
    assert!(membership.contains_voter(&node(3)));
    assert!(membership.learners().is_empty());
}

#[test]
fn node_cannot_be_voter_and_learner() {
    let membership = Membership::new(vec![node(2), node(3)], vec![node(3), node(4)]);
    assert!(membership.contains_voter(&node(3)));
    assert!(!membership.contains_learner(&node(3)));
    assert!(membership.contains_learner(&node(4)));
}

#[test]
fn add_voter_promotes_a_learner() {
    let mut m = Membership::new(vec![node(2)], vec![node(5)]);
    m.add_voter(node(5));
    assert!(m.contains_voter(&node(5)));
    assert!(!m.contains_learner(&node(5)));
    assert_eq!(m.voter_count(), 2);
    assert!(m.learners().is_empty());
}

#[test]
fn add_learner_on_a_voter_changes_nothing() {
    let mut m = Membership::with_voters(vec![node(2), node(3)]);
    m.add_learner(node(3));
    assert!(!m.contains_learner(&node(3)));
    assert!(m.contains_voter(&node(3)));
    m.add_learner(node(7));
    assert!(m.contains_learner(&node(7)));
    assert!(m.contains_member(&node(7)));
    assert!(!m.contains_member(&node(8)));
}

#[test]
fn remove_voter_and_learner() {
    let mut m = Membership::new(vec![node(2), node(3)], vec![node(4)]);
    m.remove_voter(node(2));
    assert!(!m.contains_voter(&node(2)));
    assert_eq!(m.voter_count(), 1);
    m.remove_learner(node(4));
    assert!(!m.contains_learner(&node(4)));
    m.remove_voter(node(9));
    assert_eq!(m.voter_count(), 1);
}

#[test]
fn duplicate_voters_collapse_and_iterate_in_order() {
    let m = Membership::with_voters(vec![node(9), node(3), node(9), node(5)]);
    assert_eq!(m.voter_count(), 3);
    let ids: Vec<u64> = m.voters().as_slice().iter().map(|n| n.get()).collect();
    assert_eq!(ids, vec![3, 5, 9]);
}

#[test]
fn default_membership_is_empty() {
    let m = Membership::default();
    assert_eq!(m.voter_count(), 0);
    assert!(m.learners().is_empty());
}

#[test]
fn node_set_insert_and_remove_report_change() {
    let mut s = NodeSet::new();
    assert!(s.insert(node(4)));
    assert!(!s.insert(node(4)));
    assert!(s.insert(node(1)));
    assert_eq!(s.len(), 2);
    assert!(s.contains(&node(1)));
    assert!(s.remove(&node(4)));
    assert!(!s.remove(&node(4)));
    assert_eq!(s.as_slice(), &[node(1)]);
}

#[test]
fn node_id_zero_is_reserved() {
    assert!(NodeId::new(0).is_none());
    assert_eq!(NodeId::new(7).unwrap().get(), 7);
}
