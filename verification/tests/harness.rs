use jotun::engine::action::Action;
use jotun::engine::event::Event;
use jotun::records::append_entries::{AppendEntriesResponse, AppendEntriesResult, RequestAppendEntries};
use jotun::records::log_entry::LogEntry;
use jotun::records::message::Message;
use jotun::records::vote::{RequestVote, VoteResponse};
use jotun::sim::harness::{
    apply_write, check_send_ordering, hydration_events, smallest_peer, NodeHarness, PendingWrite,
    PersistedState, REASON_ENTRIES_NOT_PERSISTED, REASON_TERM_NOT_PERSISTED,
    REASON_VOTE_NOT_PERSISTED,
};
use jotun::types::index::LogIndex;
use jotun::types::log_id::LogId;
use jotun::types::node::NodeId;
use jotun::types::term::Term;

fn node(id: u64) -> NodeId {
    NodeId::new(id).unwrap()
}

fn entry(index: u64, term: u64) -> LogEntry<u64> {
    LogEntry { id: LogId::new(LogIndex::new(index), Term::new(term)), command: index * 10 }
}

fn harness() -> NodeHarness<u64, ()> {
    NodeHarness::new(node(1), vec![node(3), node(2)], 5, ())
}

fn vote_request(term: u64) -> Message<u64> {
    Message::VoteRequest(RequestVote { term: Term::new(term), candidate_id: node(1), last_log_id: None })
}

fn append(term: u64, entries: Vec<LogEntry<u64>>) -> Message<u64> {
    Message::AppendEntriesRequest(RequestAppendEntries {
        term: Term::new(term),
        leader_id: node(1),
        prev_log_id: None,
        entries,
        leader_commit: LogIndex::new(0),
    })
}

fn send(message: Message<u64>) -> Action<u64> {
    Action::Send { to: node(2), message }
}

#[test]
fn persist_then_send_is_accepted_and_queued() {
    let mut h = harness();
    let actions = vec![
        Action::PersistHardState { current_term: Term::new(1), voted_for: Some(node(1)) },
        send(vote_request(1)),
    ];
    assert_eq!(h.absorb(&actions), Ok(()));
    assert_eq!(h.pending.len(), 1);
    assert!(matches!(
        h.pending[0],
        PendingWrite::HardState { current_term: Term(1), voted_for: Some(_) }
    ));
}

#[test]
fn send_with_unpersisted_term_is_reported() {
    let mut h = harness();
    let actions = vec![send(vote_request(1))];
    let err = h.absorb(&actions).unwrap_err();
    assert_eq!(err.send_index_in_actions, 0);
    assert_eq!(err.reason, REASON_TERM_NOT_PERSISTED);
}

#[test]
fn vote_request_without_hard_state_is_reported() {
    let mut h = harness();
    let actions = vec![send(vote_request(0))];
    let err = h.absorb(&actions).unwrap_err();
    assert_eq!(err.reason, REASON_VOTE_NOT_PERSISTED);
}

#[test]
fn replicated_entries_must_be_persisted_first() {
    let mut h = harness();
    let ok = vec![
        Action::PersistLogEntries(vec![entry(1, 0)]),
        send(append(0, vec![entry(1, 0)])),
        Action::Apply(vec![entry(1, 0)]),
    ];
    assert_eq!(h.absorb(&ok), Ok(()));
    assert_eq!(h.applied.len(), 1);
    assert_eq!(h.applied[0].id, entry(1, 0).id);

    let bad = vec![
        Action::Apply(vec![entry(2, 0)]),
        Action::PersistLogEntries(vec![entry(2, 0)]),
        send(append(0, vec![entry(2, 0), entry(3, 0)])),
        Action::Apply(vec![entry(3, 0)]),
    ];
    let err = h.absorb(&bad).unwrap_err();
    assert_eq!(err.send_index_in_actions, 2);
    assert_eq!(err.reason, REASON_ENTRIES_NOT_PERSISTED);
    // What came before the failing send was absorbed; what came after was not.
    assert_eq!(h.applied.len(), 2);
    assert_eq!(h.pending.len(), 2);
}

#[test]
fn entries_already_durable_need_no_new_persist() {
    let mut h = harness();
    h.absorb(&[Action::PersistLogEntries(vec![entry(1, 0), entry(2, 0)])]).unwrap();
    h.flush(usize::MAX);
    assert_eq!(h.persisted.log.len(), 2);
    // Re-sending durable entries is fine; heartbeats and responses too.
    let actions = vec![
        send(append(0, vec![entry(1, 0), entry(2, 0)])),
        send(append(0, vec![])),
        send(Message::AppendEntriesResponse(AppendEntriesResponse {
            term: Term::new(0),
            result: AppendEntriesResult::Success { last_appended: None },
        })),
        send(Message::VoteResponse(VoteResponse { term: Term::new(0), vote_granted: false })),
        Action::Redirect { leader_hint: node(2) },
    ];
    assert_eq!(h.absorb(&actions), Ok(()));
}

#[test]
fn check_send_ordering_reports_each_reason() {
    let persisted = vec![entry(1, 2)];
    assert!(check_send_ordering(0, &vote_request(2), Term::new(2), None, 0, true, &persisted).is_ok());
    assert_eq!(
        check_send_ordering(4, &vote_request(3), Term::new(2), None, 0, false, &persisted)
            .unwrap_err()
            .send_index_in_actions,
        4
    );
    assert_eq!(
        check_send_ordering(0, &append(2, vec![entry(2, 2)]), Term::new(2), None, 1, true, &persisted)
            .unwrap_err()
            .reason,
        REASON_ENTRIES_NOT_PERSISTED
    );
    assert!(check_send_ordering(0, &append(2, vec![entry(1, 2)]), Term::new(2), None, 0, true, &persisted)
        .is_ok());
}

#[test]
fn flush_applies_a_prefix_in_order() {
    let mut h = harness();
    h.absorb(&[
        Action::PersistHardState { current_term: Term::new(2), voted_for: None },
        Action::PersistLogEntries(vec![entry(1, 2)]),
        Action::PersistHardState { current_term: Term::new(3), voted_for: Some(node(2)) },
    ])
    .unwrap();
    h.flush(1);
    assert_eq!(h.persisted.current_term, Term::new(2));
    assert!(h.persisted.log.is_empty());
    assert_eq!(h.pending.len(), 2);
    h.flush(usize::MAX);
    assert_eq!(h.persisted.current_term, Term::new(3));
    assert_eq!(h.persisted.voted_for, Some(node(2)));
    assert_eq!(h.persisted.log.len(), 1);
    assert!(h.pending.is_empty());
}

#[test]
fn apply_write_overwrites_at_own_index() {
    let mut p: PersistedState<u64> = PersistedState::default();
    apply_write(&mut p, PendingWrite::LogEntries(vec![entry(1, 1), entry(2, 1), entry(3, 1)]));
    assert_eq!(p.log.len(), 3);
    apply_write(&mut p, PendingWrite::LogEntries(vec![entry(2, 2)]));
    assert_eq!(p.log.len(), 3);
    assert_eq!(p.log[1].id, entry(2, 2).id);
    // Re-writing the same prefix does not duplicate it.
    apply_write(&mut p, PendingWrite::LogEntries(vec![entry(1, 1), entry(2, 2)]));
    assert_eq!(p.log.len(), 3);
    // Index zero is skipped.
    apply_write(&mut p, PendingWrite::LogEntries(vec![entry(0, 9)]));
    assert_eq!(p.log.len(), 3);
    apply_write(&mut p, PendingWrite::HardState { current_term: Term::new(7), voted_for: None });
    assert_eq!(p.current_term, Term::new(7));
    assert_eq!(p.log.len(), 3);
}

#[test]
fn crash_drops_pending_but_keeps_durable_state() {
    let mut h = harness();
    h.absorb(&[
        Action::PersistHardState { current_term: Term::new(4), voted_for: None },
        Action::PersistLogEntries(vec![entry(1, 4)]),
    ])
    .unwrap();
    h.flush(1);
    assert!(h.is_up());
    h.crash();
    assert!(!h.is_up());
    assert!(h.pending.is_empty());
    assert_eq!(h.persisted.current_term, Term::new(4));
    assert!(h.persisted.log.is_empty());
}

#[test]
fn recover_returns_hydration_events() {
    let mut h = harness();
    // Up already: nothing to do.
    assert!(h.recover(()).is_empty());
    h.absorb(&[
        Action::PersistHardState { current_term: Term::new(3), voted_for: Some(node(3)) },
        Action::PersistLogEntries(vec![entry(1, 2), entry(2, 3)]),
    ])
    .unwrap();
    h.flush(usize::MAX);
    h.crash();
    let events = h.recover(());
    assert!(h.is_up());
    assert_eq!(events.len(), 2);
    match &events[0] {
        Event::Incoming(inc) => {
            assert_eq!(inc.from, node(2));
            match &inc.message {
                Message::AppendEntriesRequest(r) => {
                    assert_eq!(r.term, Term::new(3));
                    assert_eq!(r.leader_id, node(2));
                    assert_eq!(r.entries.len(), 2);
                    assert_eq!(r.leader_commit, LogIndex::new(0));
                }
                _ => panic!("expected an append"),
            }
        }
        _ => panic!("expected an incoming message"),
    }
    assert_eq!(
        events[1],
        Event::Incoming(jotun::engine::event::Incoming {
            from: node(3),
            message: Message::VoteRequest(RequestVote {
                term: Term::new(3),
                candidate_id: node(3),
                last_log_id: Some(LogId::new(LogIndex::new(2), Term::new(3))),
            }),
        })
    );
}

#[test]
fn hydration_restores_every_vote_and_skips_empty_state() {
    let empty: PersistedState<u64> = PersistedState::default();
    assert!(hydration_events(&empty, Some(node(2))).is_empty());
    // A vote for the node that speaks for the append is replayed too.
    let p: PersistedState<u64> = PersistedState { current_term: Term::new(1), voted_for: Some(node(2)), log: vec![] };
    let events = hydration_events(&p, Some(node(2)));
    assert_eq!(events.len(), 2);
    assert_eq!(
        events[1],
        Event::Incoming(jotun::engine::event::Incoming {
            from: node(2),
            message: Message::VoteRequest(RequestVote {
                term: Term::new(1),
                candidate_id: node(2),
                last_log_id: None,
            }),
        })
    );
    let no_vote: PersistedState<u64> = PersistedState { current_term: Term::new(1), voted_for: None, log: vec![] };
    assert_eq!(hydration_events(&no_vote, Some(node(2))).len(), 1);
    assert!(hydration_events(&p, None).is_empty());
}

#[test]
fn smallest_peer_picks_lowest_id() {
    assert_eq!(smallest_peer(&vec![node(5), node(2), node(9)]), Some(node(2)));
    assert_eq!(smallest_peer(&vec![]), None);
}

#[test]
fn writing_the_same_entries_twice_equals_writing_them_once() {
    let mut p: PersistedState<u64> = PersistedState::default();
    apply_write(&mut p, PendingWrite::LogEntries(vec![entry(1, 1), entry(2, 1)]));
    let write = PendingWrite::LogEntries(vec![entry(2, 2), entry(3, 2)]);
    apply_write(&mut p, write.clone());
    let once = p.clone();
    apply_write(&mut p, write);
    assert_eq!(p.current_term, once.current_term);
    assert_eq!(p.voted_for, once.voted_for);
    assert_eq!(p.log, once.log);
    assert_eq!(p.log.len(), 3);
}
