//! Properties of the replicated log that hold across its operations.
use vstd::prelude::*;

use crate::engine::log::{up_to_date, Log};
use crate::records::log_entry::LogEntry;
use crate::types::log_id::LogId;
use crate::types::term::Term;

verus! {

/// Every entry held in memory sits at its own index: reading index `i`
/// returns the entry whose id has index `i`, and its term is what
/// `term_at(i)` reports.
pub proof fn lemma_entry_at_has_its_index<C>(log: Log<C>, index: int)
    requires
        log.wf(),
    ensures
        log.spec_entry_at(index) matches Some(e) ==> e.id.index.0 == index && log.spec_term_at(
            index,
        ) == Some(e.id.term),
{
    if log.floor_index() < index <= log.last_index() {
        assert(log.entries()[index - log.floor_index() - 1].id.index.0 == index);
    }
}

/// Reads at or below the snapshot floor never find an entry, and above the
/// last index nothing is found either.
pub proof fn lemma_no_entry_outside_window<C>(log: Log<C>, index: int)
    requires
        log.wf(),
        index <= log.floor_index() || index > log.last_index(),
    ensures
        log.spec_entry_at(index) is None,
        index < log.floor_index() ==> log.spec_term_at(index) is None,
        index > log.last_index() ==> log.spec_term_at(index) is None,
{
}

/// The log has no history at all exactly when it holds no entry and no
/// snapshot; otherwise `last_log_id` names the last index ever held.
pub proof fn lemma_last_log_id_is_the_tail<C>(log: Log<C>)
    requires
        log.wf(),
    ensures
        log.spec_last_log_id() is None <==> log.last_index() == 0,
        log.spec_last_log_id() matches Some(id) ==> id.index.0 == log.last_index()
            && log.spec_term_at(log.last_index()) == Some(id.term),
{
}

/// Reading back an append: after appending `e`, the last id is `e.id`,
/// reading `e`'s index returns `e`, and every other index reads as before.
pub proof fn lemma_append_then_read<C>(before: Log<C>, after: Log<C>, e: LogEntry<C>)
    requires
        before.wf(),
        e.id.index.0 == before.last_index() + 1,
        after.floor() == before.floor(),
        after.entries() == before.entries().push(e),
    ensures
        after.spec_last_log_id() == Some(e.id),
        after.spec_entry_at(e.id.index.0 as int) == Some(e),
        forall|j: int| j != e.id.index.0 ==> #[trigger] after.spec_entry_at(j) == before.spec_entry_at(j),
{
    assert forall|j: int| j != e.id.index.0 implies #[trigger] after.spec_entry_at(j)
        == before.spec_entry_at(j) by {
        if before.floor_index() < j <= before.last_index() {
            assert(after.entries()[j - before.floor_index() - 1] == before.entries()[j
                - before.floor_index() - 1]);
        }
    }
}

/// Truncating from `index` (above the floor, within the log) leaves the
/// log ending right before `index`, with every earlier entry unchanged and
/// nothing readable from `index` on.
pub proof fn lemma_truncate_then_read<C>(before: Log<C>, after: Log<C>, index: int)
    requires
        before.wf(),
        before.floor_index() < index <= before.last_index(),
        after.floor() == before.floor(),
        after.entries() == before.entries().take(index - before.floor_index() - 1),
    ensures
        after.last_index() == index - 1,
        forall|j: int| j < index ==> #[trigger] after.spec_entry_at(j) == before.spec_entry_at(j),
        forall|j: int| j >= index ==> (#[trigger] after.spec_entry_at(j)) is None,
{
}

/// Installing a snapshot at `(index, term)`: the first readable index
/// becomes `index + 1`, nothing at or below `index` is readable, the
/// floor reports `term`, and when the held entry at `index` agreed on the
/// term every later entry (and so the last log id) is kept as it was.
pub proof fn lemma_install_snapshot_then_read<C>(
    before: Log<C>,
    after: Log<C>,
    index: int,
    term: Term,
)
    requires
        before.wf(),
        0 < index < u64::MAX,
        after.floor().index.0 == index,
        after.floor().term == term,
        after.entries() == if before.snapshot_consistent(index, term) {
            before.entries().skip(index - before.floor_index())
        } else {
            Seq::<LogEntry<C>>::empty()
        },
    ensures
        after.floor_index() + 1 == index + 1,
        forall|j: int| j <= index ==> (#[trigger] after.spec_entry_at(j)) is None,
        after.spec_term_at(index) == Some(term),
        before.snapshot_consistent(index, term) ==> {
            &&& forall|j: int| j > index ==> #[trigger] after.spec_entry_at(j) == before.spec_entry_at(j)
            &&& after.spec_last_log_id() == before.spec_last_log_id()
        },
        !before.snapshot_consistent(index, term) ==> after.spec_last_log_id() == Some(
            LogId { index: after.floor().index, term },
        ),
{
    if before.snapshot_consistent(index, term) {
        let p = index - before.floor_index();
        assert(after.entries().len() == before.entries().len() - p);
        assert(after.last_index() == before.last_index());
        assert forall|j: int| j > index implies #[trigger] after.spec_entry_at(j)
            == before.spec_entry_at(j) by {
            if j <= after.last_index() {
                assert(after.entries()[j - index - 1] == before.entries()[p + (j - index - 1)]);
                assert(j - before.floor_index() - 1 == p + (j - index - 1));
            }
        }
        if after.entries().len() > 0 {
            assert(after.entries().last() == before.entries().last());
        } else {
            assert(before.entries().len() == p);
            assert(before.entries().last() == before.entries()[p - 1]);
            assert(before.entries()[p - 1].id.index.0 == index);
            assert(before.entries()[p - 1].id.term == term);
            assert(before.entries()[p - 1].id.index == after.floor().index);
            assert(before.entries()[p - 1].id == after.floor());
        }
    }
}

/// `entries_from(i)` for `i` just above the floor up to one past the tail
/// yields exactly the entries numbered `i, i + 1, ..., last`.
pub proof fn lemma_entries_from_is_the_tail<C>(log: Log<C>, index: int)
    requires
        log.wf(),
        log.floor_index() < index <= log.last_index() + 1,
    ensures
        log.spec_entries_from(index).len() == log.last_index() - index + 1,
        forall|k: int|
            0 <= k < log.spec_entries_from(index).len() ==> #[trigger] log.spec_entries_from(
                index,
            )[k].id.index.0 == index + k,
{
    let s = log.spec_entries_from(index);
    let off = index - log.floor_index() - 1;
    assert forall|k: int| 0 <= k < s.len() implies #[trigger] s[k].id.index.0 == index + k by {
        assert(s[k] == log.entries()[off + k]);
        assert(log.entries()[off + k].id.index.0 == log.floor_index() + off + k + 1);
    }
}

/// The up-to-date order of §5.4.1 is reflexive: a log is superseded by a
/// candidate whose last log id equals its own.
pub proof fn lemma_up_to_date_reflexive(ours: Option<LogId>)
    ensures
        up_to_date(ours, ours),
{
}

/// The up-to-date order is total: of any two last log ids, one is at
/// least as up-to-date as the other.
pub proof fn lemma_up_to_date_total(a: Option<LogId>, b: Option<LogId>)
    ensures
        up_to_date(a, b) || up_to_date(b, a),
{
}

/// The up-to-date order is transitive.
pub proof fn lemma_up_to_date_transitive(a: Option<LogId>, b: Option<LogId>, c: Option<LogId>)
    requires
        up_to_date(a, b),
        up_to_date(b, c),
    ensures
        up_to_date(a, c),
{
}

} // verus!
