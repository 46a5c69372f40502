use jotun::engine::action::Action;
use jotun::engine::log::Log;
use jotun::engine::snapshot::snapshot_taken;
use jotun::records::log_entry::LogEntry;
use jotun::types::index::{CommitIndex, LogIndex};
use jotun::types::log_id::LogId;
use jotun::types::term::Term;

fn term(t: u64) -> Term {
    Term::new(t)
}

fn log_id(index: u64, t: u64) -> LogId {
    LogId::new(LogIndex::new(index), term(t))
}

/// A follower log holding one entry per term in `terms`, at indices 1, 2, ...
fn seed_log(terms: &[u64]) -> Log<Vec<u8>> {
    let mut log = Log::new();
    for (i, t) in terms.iter().enumerate() {
        log.append(LogEntry { id: log_id(i as u64 + 1, *t), command: vec![i as u8] });
    }
    log
}

/// The commit index a leader's empty `AppendEntries` with `leader_commit = idx`
/// leaves on the follower.
fn commit_follower_log(log: &Log<Vec<u8>>, idx: u64) -> CommitIndex {
    let last = log.last_log_id().unwrap().index.get();
    CommitIndex::new(LogIndex::new(idx.min(last)))
}

#[test]
fn snapshot_taken_truncates_log_up_to_index_and_emits_persist_snapshot() {
    let mut log = seed_log(&[1, 1, 1, 1, 1]);
    let commit = commit_follower_log(&log, 3);
    assert_eq!(commit.get(), LogIndex::new(3));

    let actions = snapshot_taken(&mut log, commit, LogIndex::new(3), b"snap-bytes".to_vec());

    assert_eq!(log.snapshot_last().index, LogIndex::new(3));
    assert_eq!(log.snapshot_last().term, term(1));
    assert!(log.entry_at(LogIndex::new(1)).is_none());
    assert!(log.entry_at(LogIndex::new(2)).is_none());
    assert!(log.entry_at(LogIndex::new(3)).is_none());
    assert!(log.entry_at(LogIndex::new(4)).is_some());
    assert!(log.entry_at(LogIndex::new(5)).is_some());
    assert_eq!(log.last_log_id().map(|l| l.index.get()), Some(5));

    let persist = actions.iter().find_map(|a| match a {
        Action::PersistSnapshot { last_included_index, last_included_term, bytes } => {
            Some((*last_included_index, *last_included_term, bytes.clone()))
        }
        _ => None,
    });
    assert_eq!(persist, Some((LogIndex::new(3), term(1), b"snap-bytes".to_vec())));
}

#[test]
fn snapshot_at_last_committed_index_clears_in_memory_log() {
    let mut log = seed_log(&[1, 1, 1]);
    let commit = commit_follower_log(&log, 3);

    snapshot_taken(&mut log, commit, LogIndex::new(3), b"all".to_vec());

    assert!(log.is_empty());
    assert_eq!(log.snapshot_last().index, LogIndex::new(3));
    assert_eq!(
        log.last_log_id(),
        Some(log_id(3, 1)),
        "last_log_id falls through to the snapshot tail",
    );
}

#[test]
fn snapshot_advances_first_index() {
    let mut log = seed_log(&[1, 1, 1, 1]);
    let commit = commit_follower_log(&log, 2);

    assert_eq!(log.first_index(), LogIndex::new(1));
    snapshot_taken(&mut log, commit, LogIndex::new(2), b"".to_vec());
    assert_eq!(log.first_index(), LogIndex::new(3));
}

#[test]
fn snapshot_past_commit_index_is_refused() {
    let mut log = seed_log(&[1, 1, 1, 1, 1]);
    let commit = commit_follower_log(&log, 2);

    let actions = snapshot_taken(&mut log, commit, LogIndex::new(5), b"too-far".to_vec());

    assert!(actions.is_empty(), "snapshot past commit_index must yield no actions");
    assert_eq!(log.snapshot_last().index, LogIndex::new(0));
    assert_eq!(log.len(), 5);
}

#[test]
fn stale_snapshot_at_or_below_existing_floor_is_a_noop() {
    let mut log = seed_log(&[1, 1, 1, 1]);
    let commit = commit_follower_log(&log, 4);
    snapshot_taken(&mut log, commit, LogIndex::new(3), b"first".to_vec());
    assert_eq!(log.snapshot_last().index, LogIndex::new(3));

    let actions = snapshot_taken(&mut log, commit, LogIndex::new(3), b"second".to_vec());
    assert!(actions.is_empty());
    assert_eq!(log.snapshot_last().index, LogIndex::new(3));

    let actions = snapshot_taken(&mut log, commit, LogIndex::new(2), b"third".to_vec());
    assert!(actions.is_empty());
    assert_eq!(log.snapshot_last().index, LogIndex::new(3));
}

#[test]
fn snapshot_records_correct_term_for_floor() {
    let mut log = seed_log(&[1, 1, 2, 2, 3]);
    let commit = commit_follower_log(&log, 3);

    snapshot_taken(&mut log, commit, LogIndex::new(3), b"".to_vec());
    assert_eq!(log.snapshot_last().term, Term::new(2));
}

#[test]
fn term_at_floor_index_returns_snapshot_term() {
    let mut log = seed_log(&[1, 1, 1]);
    let commit = commit_follower_log(&log, 3);
    snapshot_taken(&mut log, commit, LogIndex::new(3), b"".to_vec());

    assert_eq!(log.term_at(LogIndex::new(3)), Some(term(1)));
    assert_eq!(log.term_at(LogIndex::new(2)), None);
}

#[test]
fn entries_from_below_floor_returns_empty_slice() {
    let mut log = seed_log(&[1, 1, 1, 1, 1]);
    let commit = commit_follower_log(&log, 3);
    snapshot_taken(&mut log, commit, LogIndex::new(3), b"".to_vec());

    assert!(log.entries_from(LogIndex::new(2)).is_empty());
    assert_eq!(log.entries_from(LogIndex::new(4)).len(), 2);
}

// ---------------------------------------------------------------------------
// Further cases of the snapshot rule
// ---------------------------------------------------------------------------

#[test]
fn snapshot_keeps_surviving_entries_and_passes_invariant_check() {
    let mut log = seed_log(&[1, 2, 2, 3, 3]);
    let commit = commit_follower_log(&log, 4);
    let before_last = log.last_log_id();
    let actions = snapshot_taken(&mut log, commit, LogIndex::new(4), b"x".to_vec());
    assert_eq!(actions.len(), 1);
    assert_eq!(log.last_log_id(), before_last);
    assert_eq!(log.len(), 1);
    assert_eq!(log.entry_at(LogIndex::new(5)).unwrap().id, log_id(5, 3));
    assert!(log.check_invariants());
}

#[test]
fn snapshot_on_empty_log_with_zero_commit_is_refused() {
    let mut log: Log<Vec<u8>> = Log::new();
    let actions =
        snapshot_taken(&mut log, CommitIndex::new(LogIndex::new(0)), LogIndex::new(1), vec![]);
    assert!(actions.is_empty());
    assert_eq!(log.snapshot_last(), log_id(0, 0));
}
