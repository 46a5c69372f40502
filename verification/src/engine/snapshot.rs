use vstd::prelude::*;

use crate::engine::action::Action;
use crate::engine::log::Log;
use crate::types::index::{CommitIndex, LogIndex};
use crate::types::log_id::LogId;
use crate::engine::log_laws::lemma_install_snapshot_then_read;

verus! {

/// Whether a snapshot up to `last_included_index` is taken: it must cover
/// only committed state, move the floor forward, and end on an index whose
/// term the log knows.
pub open spec fn snapshot_accepted<C>(log: Log<C>, commit_index: CommitIndex, last_included_index: int) -> bool {
    &&& last_included_index <= commit_index.0.0
    &&& last_included_index > log.floor_index()
    &&& log.spec_term_at(last_included_index) is Some
}

/// The engine's handling of `Event::SnapshotTaken`: the host has produced
/// a snapshot of everything applied up to `last_included_index`.
///
/// Refused silently (no actions, log untouched) when the index is past
/// the commit index — the host can only snapshot committed state — and a
/// no-op when it is at or below the current floor. Otherwise the log's
/// floor moves to `(last_included_index, term of that entry)`, the entries
/// up to it are dropped, and one `PersistSnapshot` carrying that id and
/// `bytes` is emitted for the host to flush.
pub fn snapshot_taken<C>(
    log: &mut Log<C>,
    commit_index: CommitIndex,
    last_included_index: LogIndex,
    bytes: Vec<u8>,
) -> (actions: Vec<Action<C>>)
    requires
        old(log).wf(),
        last_included_index.0 < u64::MAX,
    ensures
        final(log).wf(),
        !snapshot_accepted(*old(log), commit_index, last_included_index.0 as int) ==> {
            &&& actions@.len() == 0
            &&& *final(log) == *old(log)
        },
        snapshot_accepted(*old(log), commit_index, last_included_index.0 as int) ==> {
            let term = old(log).spec_term_at(last_included_index.0 as int)->0;
            &&& final(log).floor() == (LogId { index: last_included_index, term })
            &&& final(log).entries() == old(log).entries().skip(
                last_included_index.0 - old(log).floor_index(),
            )
            &&& actions@ == seq![
                Action::<C>::PersistSnapshot {
                    last_included_index,
                    last_included_term: term,
                    bytes,
                },
            ]
        },
{
    let mut actions: Vec<Action<C>> = Vec::new();
    if last_included_index.get() > commit_index.get().get() {
        return actions;
    }
    if last_included_index.get() <= log.snapshot_last().index.get() {
        return actions;
    }
    let term = match log.term_at(last_included_index) {
        Some(t) => t,
        None => return actions,
    };
    log.install_snapshot(last_included_index, term);
    actions.push(
        Action::PersistSnapshot { last_included_index, last_included_term: term, bytes },
    );
    actions
}

/// A taken snapshot keeps the history: the last log id is unchanged, the
/// first readable index moves to just past the snapshot, and the snapshot
/// index still reports the term of the entry that was there; taking the
/// same snapshot again (or an older one) is then a no-op.
pub proof fn lemma_snapshot_keeps_history<C>(
    before: Log<C>,
    after: Log<C>,
    commit_index: CommitIndex,
    index: int,
    older: int,
)
    requires
        before.wf(),
        index < u64::MAX,
        snapshot_accepted(before, commit_index, index),
        after.floor() == (LogId {
            index: LogIndex(index as u64),
            term: before.spec_term_at(index)->0,
        }),
        after.entries() == before.entries().skip(index - before.floor_index()),
        older <= index,
    ensures
        after.spec_last_log_id() == before.spec_last_log_id(),
        after.floor_index() + 1 == index + 1,
        after.spec_term_at(index) == before.spec_term_at(index),
        !snapshot_accepted(after, commit_index, older),
{
    let term = before.spec_term_at(index)->0;
    assert(before.snapshot_consistent(index, term));
    lemma_install_snapshot_then_read(before, after, index, term);
}

} // verus!
