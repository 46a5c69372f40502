use vstd::prelude::*;

use crate::records::log_entry::LogEntry;
use crate::types::index::LogIndex;
use crate::types::log_id::LogId;
use crate::types::term::Term;

verus! {

/// The replicated log — the linear, append-mostly history that consensus
/// is engineered to deliver to every node identically.
///
/// Indices are 1-based (Raft convention). Index zero is a pre-log
/// sentinel meaning "before any entry" and is never the index of a real
/// entry.
///
/// **Snapshot floor (§7).** After a snapshot is installed, entries at or
/// below the floor are no longer held in memory. Reading those indices
/// via [`Log::entry_at`] returns `None`. The boundary entry's
/// `(index, term)` is kept as `snapshot_last` so `prev_log_id` checks
/// just above the floor still work.
///
/// **Invariants** ([`Log::inv`]):
///  - in-memory entries have contiguous indices starting at
///    `snapshot_last.index + 1`;
///  - entry terms are non-decreasing across the in-memory log, and the
///    first one is at least the snapshot's term when there is a snapshot.
#[derive(Debug)]
pub struct Log<C> {
    entries: Vec<LogEntry<C>>,
    /// `(index, term)` of the entry conceptually at the snapshot's tail.
    /// Both zero when no snapshot has been installed.
    snapshot_last: LogId,
}

/// The §5.4.1 "at least as up-to-date" order on last log ids: a log with
/// no history is beaten by anything; otherwise the later last term wins,
/// and on equal terms the longer log wins (ties count as up-to-date).
pub open spec fn up_to_date(ours: Option<LogId>, theirs: Option<LogId>) -> bool {
    match ours {
        None => true,
        Some(o) => match theirs {
            None => false,
            Some(t) => t.term.0 > o.term.0 || (t.term.0 == o.term.0 && t.index.0 >= o.index.0),
        },
    }
}

impl<C> Default for Log<C> {
    /// An empty log with no snapshot, as [`Log::new`].
    fn default() -> (log: Self)
        ensures
            log.wf(),
            log.entries() == Seq::<LogEntry<C>>::empty(),
            log.floor() == (LogId { index: LogIndex(0), term: Term(0) }),
    {
        Log::new()
    }
}

impl<C> Log<C> {
    /// The in-memory entries, oldest first.
    pub closed spec fn entries(self) -> Seq<LogEntry<C>> {
        self.entries@
    }

    /// The snapshot floor: `(index, term)` of the last compacted entry.
    pub closed spec fn floor(self) -> LogId {
        self.snapshot_last
    }

    pub open spec fn floor_index(self) -> int {
        self.floor().index.0 as int
    }

    /// Index of the last entry ever held (in memory or in the snapshot).
    pub open spec fn last_index(self) -> int {
        self.floor_index() + self.entries().len()
    }

    /// The structural invariant of §5.3: contiguous indices right above
    /// the floor and non-decreasing terms.
    pub open spec fn inv(self) -> bool {
        &&& forall|i: int|
            0 <= i < self.entries().len() ==> #[trigger] self.entries()[i].id.index.0
                == self.floor_index() + i + 1
        &&& forall|i: int, j: int|
            0 <= i <= j < self.entries().len() ==> #[trigger] self.entries()[i].id.term.0
                <= #[trigger] self.entries()[j].id.term.0
        &&& (self.floor_index() > 0 && self.entries().len() > 0) ==> self.floor().term.0
            <= self.entries()[0].id.term.0
    }

    /// Well-formedness: the invariant, and room above the floor for the
    /// first readable index.
    pub open spec fn wf(self) -> bool {
        &&& self.inv()
        &&& self.floor_index() < u64::MAX
    }

    /// The entry held in memory at `index`, if any.
    pub open spec fn spec_entry_at(self, index: int) -> Option<LogEntry<C>> {
        if self.floor_index() < index <= self.last_index() {
            Some(self.entries()[index - self.floor_index() - 1])
        } else {
            None
        }
    }

    /// The term known for `index`: the snapshot's term at the floor, the
    /// entry's term above it, nothing elsewhere.
    pub open spec fn spec_term_at(self, index: int) -> Option<Term> {
        if index == 0 {
            None
        } else if index == self.floor_index() {
            Some(self.floor().term)
        } else {
            match self.spec_entry_at(index) {
                Some(e) => Some(e.id.term),
                None => None,
            }
        }
    }

    /// The id of the last entry ever held, `None` when the log has no
    /// history at all.
    pub open spec fn spec_last_log_id(self) -> Option<LogId> {
        if self.entries().len() > 0 {
            Some(self.entries().last().id)
        } else if self.floor_index() == 0 {
            None
        } else {
            Some(self.floor())
        }
    }

    /// The in-memory entries with index at least `index`; empty at or
    /// below the floor and past the tail.
    pub open spec fn spec_entries_from(self, index: int) -> Seq<LogEntry<C>> {
        if index <= self.floor_index() || index > self.last_index() + 1 {
            Seq::empty()
        } else {
            self.entries().subrange(index - self.floor_index() - 1, self.entries().len() as int)
        }
    }

    /// Whether a snapshot ending at `(index, term)` agrees with the entry
    /// held at `index`.
    pub open spec fn snapshot_consistent(self, index: int, term: Term) -> bool {
        match self.spec_entry_at(index) {
            Some(e) => e.id.term == term,
            None => false,
        }
    }

    /// An empty log with no snapshot.
    pub fn new() -> (log: Self)
        ensures
            log.wf(),
            log.entries() == Seq::<LogEntry<C>>::empty(),
            log.floor() == (LogId { index: LogIndex(0), term: Term(0) }),
    {
        Log { entries: Vec::new(), snapshot_last: LogId { index: LogIndex(0), term: Term(0) } }
    }

    /// True iff the log holds no in-memory entries. The snapshot floor is
    /// independent of this.
    pub fn is_empty(&self) -> (r: bool)
        ensures
            r <==> self.entries().len() == 0,
    {
        self.entries.len() == 0
    }

    /// Number of in-memory entries. Excludes anything compacted into the
    /// snapshot.
    pub fn len(&self) -> (r: usize)
        ensures
            r == self.entries().len(),
    {
        self.entries.len()
    }

    /// The smallest index readable via [`Log::entry_at`]:
    /// `snapshot_last.index + 1`, or 1 if no snapshot.
    pub fn first_index(&self) -> (r: LogIndex)
        requires
            self.wf(),
        ensures
            r.0 == self.floor_index() + 1,
    {
        LogIndex::new(self.snapshot_last.index.get() + 1)
    }

    /// `(index, term)` at the snapshot's tail; both zero when no snapshot
    /// has been installed.
    pub fn snapshot_last(&self) -> (r: LogId)
        ensures
            r == self.floor(),
    {
        self.snapshot_last
    }

    /// The id of the last entry, or `None` if the log has no history at
    /// all (no in-memory entries and no snapshot).
    pub fn last_log_id(&self) -> (r: Option<LogId>)
        ensures
            r == self.spec_last_log_id(),
    {
        let n = self.entries.len();
        if n > 0 {
            Some(self.entries[n - 1].id)
        } else if self.snapshot_last.index.get() == 0 {
            None
        } else {
            Some(self.snapshot_last)
        }
    }

    /// The entry at a 1-based index, if it is held in memory. `None` for
    /// indices at or below the snapshot floor and past the tail.
    pub fn entry_at(&self, index: LogIndex) -> (r: Option<&LogEntry<C>>)
        requires
            self.wf(),
        ensures
            match r {
                Some(e) => self.spec_entry_at(index.0 as int) == Some(*e),
                None => self.spec_entry_at(index.0 as int) is None,
            },
    {
        let floor = self.snapshot_last.index.get();
        if index.get() <= floor {
            return None;
        }
        let i = index.get() - floor - 1;
        if i < self.entries.len() as u64 {
            Some(&self.entries[i as usize])
        } else {
            None
        }
    }

    /// The term of the entry at `index`, if known. Equals the snapshot's
    /// term for the floor index itself; `None` below the floor and past
    /// the tail.
    pub fn term_at(&self, index: LogIndex) -> (r: Option<Term>)
        requires
            self.wf(),
        ensures
            r == self.spec_term_at(index.0 as int),
    {
        if index.get() == 0 {
            return None;
        }
        if index.get() == self.snapshot_last.index.get() {
            return Some(self.snapshot_last.term);
        }
        match self.entry_at(index) {
            Some(e) => Some(e.id.term),
            None => None,
        }
    }

    /// All in-memory entries with index at least `index`. Empty when
    /// `index` falls at or below the snapshot floor (the caller should send
    /// a snapshot instead) or past the tail.
    pub fn entries_from(&self, index: LogIndex) -> (r: &[LogEntry<C>])
        requires
            self.wf(),
        ensures
            r@ == self.spec_entries_from(index.0 as int),
    {
        let floor = self.snapshot_last.index.get();
        let n = self.entries.len();
        if index.get() <= floor {
            return vstd::slice::slice_subrange(self.entries.as_slice(), 0, 0);
        }
        let i = index.get() - floor - 1;
        if i <= n as u64 {
            vstd::slice::slice_subrange(self.entries.as_slice(), i as usize, n)
        } else {
            vstd::slice::slice_subrange(self.entries.as_slice(), 0, 0)
        }
    }

    /// Append a single entry. The entry must sit right after the last
    /// index held and must not lower the term.
    pub fn append(&mut self, entry: LogEntry<C>)
        requires
            old(self).wf(),
            entry.id.index.0 == old(self).last_index() + 1,
            old(self).entries().len() > 0 ==> old(self).entries().last().id.term.0
                <= entry.id.term.0,
            (old(self).entries().len() == 0 && old(self).floor_index() > 0) ==> old(
                self,
            ).floor().term.0 <= entry.id.term.0,
        ensures
            final(self).wf(),
            final(self).floor() == old(self).floor(),
            final(self).entries() == old(self).entries().push(entry),
    {
        self.entries.push(entry);
        proof {
            let es = self.entries@;
            assert forall|i: int, j: int| 0 <= i <= j < es.len() implies #[trigger] es[i].id.term.0
                <= #[trigger] es[j].id.term.0 by {
                if j == es.len() - 1 && i < j {
                    assert(es[i].id.term.0 <= es[es.len() - 2].id.term.0);
                }
            }
        }
    }

    /// Remove all entries with index at least `index`. No-op if `index` is
    /// past the end or at/below the snapshot floor (snapshotted entries
    /// are immutable).
    pub fn truncate_from(&mut self, index: LogIndex)
        requires
            old(self).wf(),
        ensures
            final(self).wf(),
            final(self).floor() == old(self).floor(),
            final(self).entries() == if index.0 <= old(self).floor_index() || index.0
                > old(self).last_index() {
                old(self).entries()
            } else {
                old(self).entries().take(index.0 - old(self).floor_index() - 1)
            },
    {
        let floor = self.snapshot_last.index.get();
        if index.get() <= floor {
            return;
        }
        let i = index.get() - floor - 1;
        let n = self.entries.len();
        if i < n as u64 {
            let ghost before = old(self).entries();
            let k = i as usize;
            assert(k == i);
            self.entries.truncate(k);
            proof {
                let es = self.entries@;
                assert forall|a: int, b: int| 0 <= a <= b < es.len() implies #[trigger] es[a].id.term.0
                    <= #[trigger] es[b].id.term.0 by {
                    assert(es[a] == before[a] && es[b] == before[b]);
                }
                assert forall|k: int| 0 <= k < es.len() implies #[trigger] es[k].id.index.0
                    == floor + k + 1 by {
                    assert(es[k] == before[k]);
                }
                if es.len() > 0 {
                    assert(es[0] == before[0]);
                }
            }
        }
    }

    /// Install a fresh snapshot floor at `(last_included_index,
    /// last_included_term)`. When the entry held at that index carries the
    /// same term, the entries past it survive; otherwise the in-memory log
    /// is wiped, because Log Matching no longer holds across the floor.
    pub fn install_snapshot(&mut self, last_included_index: LogIndex, last_included_term: Term)
        requires
            old(self).wf(),
            last_included_index.0 < u64::MAX,
        ensures
            final(self).wf(),
            final(self).floor() == (LogId { index: last_included_index, term: last_included_term }),
            final(self).entries() == if old(self).snapshot_consistent(
                last_included_index.0 as int,
                last_included_term,
            ) {
                old(self).entries().skip(last_included_index.0 - old(self).floor_index())
            } else {
                Seq::<LogEntry<C>>::empty()
            },
    {
        let ghost old_self = *self;
        let consistent = match self.entry_at(last_included_index) {
            Some(e) => e.id.term.get() == last_included_term.get(),
            None => false,
        };
        assert(consistent == old_self.snapshot_consistent(
            last_included_index.0 as int,
            last_included_term,
        ));
        let floor = self.snapshot_last.index.get();
        self.snapshot_last = LogId::new(last_included_index, last_included_term);
        if consistent {
            // Entries strictly past the new floor form the suffix that
            // starts right after the boundary entry.
            let n = self.entries.len();
            assert(floor < last_included_index.0 <= floor + n);
            let keep_from = (last_included_index.get() - floor) as usize;
            assert(keep_from == last_included_index.0 - floor);
            let tail = self.entries.split_off(keep_from);
            self.entries = tail;
            proof {
                let p = last_included_index.0 - floor - 1;
                let es = self.entries@;
                assert(old_self.entries()[p as int].id.term == last_included_term);
                assert forall|i: int| 0 <= i < es.len() implies #[trigger] es[i].id.index.0
                    == last_included_index.0 + i + 1 by {
                    assert(es[i] == old_self.entries()[p + 1 + i]);
                }
                if es.len() > 0 {
                    assert(es[0] == old_self.entries()[p + 1]);
                }
                assert forall|i: int, j: int| 0 <= i <= j < es.len() implies #[trigger] es[i].id.term.0
                    <= #[trigger] es[j].id.term.0 by {
                    assert(es[i] == old_self.entries()[p + 1 + i]);
                    assert(es[j] == old_self.entries()[p + 1 + j]);
                }
            }
        } else {
            self.entries.clear();
        }
    }

    /// True iff `candidate_last_log` is at least as up-to-date as ours per
    /// §5.4.1 (last term wins; ties broken by length). The snapshot floor
    /// counts: `last_log_id` falls back to it when memory is empty.
    pub fn is_superseded_by(&self, candidate_last_log: Option<LogId>) -> (r: bool)
        ensures
            r == up_to_date(self.spec_last_log_id(), candidate_last_log),
    {
        match self.last_log_id() {
            None => true,
            Some(ours) => match candidate_last_log {
                None => false,
                Some(theirs) => theirs.term.get() > ours.term.get() || (theirs.term.get()
                    == ours.term.get() && theirs.index.get() >= ours.index.get()),
            },
        }
    }

    /// Check the structural invariant ([`Log::inv`]): contiguous indices
    /// starting at `first_index()` and non-decreasing terms. A log that
    /// breaks it is a bug that a debug build stops on, so such a log is no
    /// input here; on every other log the check passes.
    pub fn check_invariants(&self) -> (ok: bool)
        requires
            self.inv(),
        ensures
            ok == self.inv(),
    {
        let floor = self.snapshot_last.index.get();
        let n = self.entries.len();
        let mut i: usize = 0;
        while i < n
            invariant
                n == self.entries().len(),
                floor == self.floor_index(),
                i <= n,
                forall|k: int|
                    0 <= k < i ==> #[trigger] self.entries()[k].id.index.0 == floor + k + 1,
                forall|a: int, b: int|
                    0 <= a <= b < i ==> #[trigger] self.entries()[a].id.term.0
                        <= #[trigger] self.entries()[b].id.term.0,
                (floor > 0 && i > 0) ==> self.floor().term.0 <= self.entries()[0].id.term.0,
            decreases n - i,
        {
            let entry = &self.entries[i];
            let idx = entry.id.index.get();
            if !(idx > floor && idx - floor - 1 == i as u64) {
                assert(self.entries()[i as int].id.index.0 != floor + i + 1);
                return false;
            }
            if i > 0 {
                if entry.id.term.get() < self.entries[i - 1].id.term.get() {
                    assert(!(self.entries()[i - 1].id.term.0 <= self.entries()[i as int].id.term.0));
                    return false;
                }
            } else if floor > 0 {
                if entry.id.term.get() < self.snapshot_last.term.get() {
                    return false;
                }
            }
            proof {
                let es = self.entries();
                assert forall|a: int, b: int| 0 <= a <= b < i + 1 implies #[trigger] es[a].id.term.0
                    <= #[trigger] es[b].id.term.0 by {
                    if b == i && a < b {
                        assert(es[a].id.term.0 <= es[i - 1].id.term.0);
                    }
                }
            }
            i = i + 1;
        }
        true
    }
}

} // verus!
