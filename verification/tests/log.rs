use jotun::engine::log::Log;
use jotun::records::log_entry::LogEntry;
use jotun::types::index::{AppliedIndex, CommitIndex, LogIndex};
use jotun::types::log_id::LogId;
use jotun::types::term::Term;

fn id(index: u64, term: u64) -> LogId {
    LogId::new(LogIndex::new(index), Term::new(term))
}

fn log_with(terms: &[u64]) -> Log<u64> {
    let mut log = Log::new();
    for (i, t) in terms.iter().enumerate() {
        log.append(LogEntry { id: id(i as u64 + 1, *t), command: 100 + i as u64 });
    }
    log
}

#[test]
fn new_log_has_no_history() {
    let log: Log<u64> = Log::new();
    assert!(log.is_empty());
    assert_eq!(log.len(), 0);
    assert_eq!(log.first_index(), LogIndex::new(1));
    assert_eq!(log.snapshot_last(), id(0, 0));
    assert_eq!(log.last_log_id(), None);
    assert_eq!(log.term_at(LogIndex::new(0)), None);
    assert!(log.entry_at(LogIndex::new(1)).is_none());
    assert!(log.check_invariants());
}

#[test]
fn append_then_read_back() {
    let log = log_with(&[1, 1, 2]);
    assert_eq!(log.len(), 3);
    assert_eq!(log.last_log_id(), Some(id(3, 2)));
    let e = log.entry_at(LogIndex::new(2)).unwrap();
    assert_eq!(e.id, id(2, 1));
    assert_eq!(e.command, 101);
    assert_eq!(log.term_at(LogIndex::new(3)), Some(Term::new(2)));
    assert_eq!(log.term_at(LogIndex::new(4)), None);
    assert!(log.entry_at(LogIndex::new(4)).is_none());
    assert!(log.check_invariants());
}

#[test]
fn entries_from_slices_the_tail() {
    let log = log_with(&[1, 1, 2, 3]);
    let tail = log.entries_from(LogIndex::new(3));
    assert_eq!(tail.len(), 2);
    assert_eq!(tail[0].id, id(3, 2));
    assert_eq!(tail[1].id, id(4, 3));
    assert_eq!(log.entries_from(LogIndex::new(5)).len(), 0);
    assert_eq!(log.entries_from(LogIndex::new(9)).len(), 0);
    assert_eq!(log.entries_from(LogIndex::new(0)).len(), 0);
    assert_eq!(log.entries_from(LogIndex::new(1)).len(), 4);
}

#[test]
fn truncate_from_drops_the_tail() {
    let mut log = log_with(&[1, 1, 2, 3]);
    log.truncate_from(LogIndex::new(3));
    assert_eq!(log.len(), 2);
    assert_eq!(log.last_log_id(), Some(id(2, 1)));
    assert!(log.entry_at(LogIndex::new(3)).is_none());
    // Past the end: no-op.
    log.truncate_from(LogIndex::new(7));
    assert_eq!(log.len(), 2);
    assert!(log.check_invariants());
}

#[test]
fn truncate_at_or_below_floor_is_a_noop() {
    let mut log = log_with(&[1, 1, 2, 3]);
    log.install_snapshot(LogIndex::new(2), Term::new(1));
    log.truncate_from(LogIndex::new(2));
    assert_eq!(log.len(), 2);
    log.truncate_from(LogIndex::new(1));
    assert_eq!(log.len(), 2);
    log.truncate_from(LogIndex::new(3));
    assert_eq!(log.len(), 0);
    assert_eq!(log.last_log_id(), Some(id(2, 1)));
}

#[test]
fn install_snapshot_with_matching_term_keeps_the_tail() {
    let mut log = log_with(&[1, 1, 2, 3]);
    log.install_snapshot(LogIndex::new(2), Term::new(1));
    assert_eq!(log.first_index(), LogIndex::new(3));
    assert_eq!(log.len(), 2);
    assert_eq!(log.entry_at(LogIndex::new(3)).unwrap().id, id(3, 2));
    assert_eq!(log.term_at(LogIndex::new(2)), Some(Term::new(1)));
    assert!(log.check_invariants());
}

#[test]
fn install_snapshot_with_conflicting_term_wipes_the_log() {
    let mut log = log_with(&[1, 1, 2, 3]);
    log.install_snapshot(LogIndex::new(3), Term::new(5));
    assert!(log.is_empty());
    assert_eq!(log.last_log_id(), Some(id(3, 5)));
    assert_eq!(log.first_index(), LogIndex::new(4));
}

#[test]
fn install_snapshot_past_the_tail_wipes_the_log() {
    let mut log = log_with(&[1, 1]);
    log.install_snapshot(LogIndex::new(10), Term::new(4));
    assert!(log.is_empty());
    assert_eq!(log.snapshot_last(), id(10, 4));
    assert_eq!(log.first_index(), LogIndex::new(11));
}

#[test]
fn up_to_date_check_follows_last_term_then_length() {
    let log = log_with(&[1, 2, 2]);
    // Higher last term wins even when shorter.
    assert!(log.is_superseded_by(Some(id(1, 3))));
    // Same term: longer or equal wins.
    assert!(log.is_superseded_by(Some(id(3, 2))));
    assert!(log.is_superseded_by(Some(id(4, 2))));
    assert!(!log.is_superseded_by(Some(id(2, 2))));
    // Lower term loses.
    assert!(!log.is_superseded_by(Some(id(9, 1))));
    // A candidate with no history loses against any history.
    assert!(!log.is_superseded_by(None));
    // A log with no history is superseded by anything.
    let empty: Log<u64> = Log::new();
    assert!(empty.is_superseded_by(None));
    assert!(empty.is_superseded_by(Some(id(1, 1))));
    // Reflexive.
    assert!(log.is_superseded_by(log.last_log_id()));
}

#[test]
fn index_types_wrap_and_unwrap() {
    let i = LogIndex::new(41);
    assert_eq!(i.get(), 41);
    assert_eq!(i.next(), LogIndex::new(42));
    assert_eq!(CommitIndex::new(i).get(), i);
    assert_eq!(AppliedIndex::new(i).get(), i);
    assert_eq!(Term::new(3).get(), 3);
}

#[test]
fn index_types_render_with_their_label() {
    assert_eq!(LogIndex::new(42).to_display_string(), "log_index:42");
    assert_eq!(CommitIndex::new(LogIndex::new(0)).to_display_string(), "commit_index:log_index:0");
    assert_eq!(AppliedIndex::new(LogIndex::new(1007)).to_display_string(), "applied_index:log_index:1007");
}

#[test]
fn default_log_equals_new_log() {
    let log: Log<u64> = Log::default();
    assert!(log.is_empty());
    assert_eq!(log.last_log_id(), None);
}
