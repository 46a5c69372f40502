//! Per-node state of a simulated cluster member: the live engine, its
//! durable persisted state, and the pending-write queue that models
//! partial disk flushes.
//!
//! Real hosts write to disk at fsync boundaries they choose. The harness
//! does not apply every `Persist` action to the durable state at once: it
//! queues them. The scheduler picks when a prefix of that queue gets
//! flushed, and the rest is discarded on crash — mirroring the "we sent
//! before fsync completed" failure mode that Raft's action-ordering
//! contract exists to catch.
use vstd::prelude::*;

use crate::engine::action::Action;
use crate::engine::event::{Event, Incoming};
use crate::records::append_entries::RequestAppendEntries;
use crate::records::log_entry::LogEntry;
use crate::records::message::Message;
use crate::records::vote::RequestVote;
use crate::types::index::LogIndex;
use crate::types::log_id::LogId;
use crate::types::node::NodeId;
use crate::types::term::Term;

verus! {

/// Reason given when a `Send` shows a term that was never made durable.
pub const REASON_TERM_NOT_PERSISTED: &'static str =
    "Send carries a term greater than last durable term with no prior PersistHardState";

/// Reason given when a `VoteRequest` goes out before its vote is durable.
pub const REASON_VOTE_NOT_PERSISTED: &'static str =
    "VoteRequest sent without prior PersistHardState in the same step";

/// Reason given when replicated entries go out before they are durable.
pub const REASON_ENTRIES_NOT_PERSISTED: &'static str =
    "AppendEntriesRequest carries entries not persisted earlier this step";

/// The durable state the engine recovers from on restart: what Raft
/// Figure 2 calls "persistent state on all servers".
#[derive(Debug, Clone)]
pub struct PersistedState<C> {
    pub current_term: Term,
    pub voted_for: Option<NodeId>,
    pub log: Vec<LogEntry<C>>,
}

/// The mathematical content of a [`PersistedState`].
pub struct PersistedView<C> {
    pub current_term: Term,
    pub voted_for: Option<NodeId>,
    pub log: Seq<LogEntry<C>>,
}

impl<C> View for PersistedState<C> {
    type V = PersistedView<C>;

    open spec fn view(&self) -> PersistedView<C> {
        PersistedView { current_term: self.current_term, voted_for: self.voted_for, log: self.log@ }
    }
}

impl<C> Default for PersistedState<C> {
    /// Term zero, no vote, empty log: the state of a node that never ran.
    fn default() -> (r: Self)
        ensures
            r.current_term == Term(0),
            r.voted_for is None,
            r.log@ == Seq::<LogEntry<C>>::empty(),
    {
        PersistedState { current_term: Term(0), voted_for: None, log: Vec::new() }
    }
}

/// A write that has been emitted by the engine but not yet fsynced.
#[derive(Debug, Clone)]
pub enum PendingWrite<C> {
    HardState { current_term: Term, voted_for: Option<NodeId> },
    LogEntries(Vec<LogEntry<C>>),
}

/// A `Send` whose prerequisite persist was not ordered before it.
#[derive(Debug, Clone, Copy, PartialEq, Eq)]
pub struct PersistOrderingError {
    pub send_index_in_actions: usize,
    pub reason: &'static str,
}

/// One node in the simulated cluster: a live engine (`None` while the
/// node is crashed), its durable state, the still-pending writes, and the
/// applied entries the state-machine-safety check compares against.
#[derive(Debug)]
pub struct NodeHarness<C, E> {
    pub id: NodeId,
    pub peers: Vec<NodeId>,
    pub engine: Option<E>,
    pub persisted: PersistedState<C>,
    pub pending: Vec<PendingWrite<C>>,
    pub applied: Vec<LogEntry<C>>,
    pub heartbeat_interval_ticks: u64,
}

// ---------------------------------------------------------------------
// Specification
// ---------------------------------------------------------------------

/// The term visible in an outgoing message.
pub open spec fn message_term<C>(m: Message<C>) -> Term {
    match m {
        Message::VoteRequest(r) => r.term,
        Message::VoteResponse(r) => r.term,
        Message::AppendEntriesRequest(r) => r.term,
        Message::AppendEntriesResponse(r) => r.term,
    }
}

/// The ids of a sequence of entries, in order.
pub open spec fn ids_of<C>(es: Seq<LogEntry<C>>) -> Seq<LogId> {
    es.map_values(|e: LogEntry<C>| e.id)
}

/// An entry that a send carries must have been persisted this step,
/// unless it was already durable before the step (its index is within
/// the durable log).
pub open spec fn needs_persist<C>(e: LogEntry<C>, persisted_ids: Seq<LogId>, pre_log_end: int) -> bool {
    !persisted_ids.contains(e.id) && e.id.index.0 > pre_log_end
}

/// Why sending `message` at this point of a step breaks "persist before
/// send" (Figure 2: respond to RPCs only after updating stable storage),
/// or `None` when it does not.
pub open spec fn ordering_violation<C>(
    message: Message<C>,
    pre_term: Term,
    hard_state_persisted: bool,
    persisted_ids: Seq<LogId>,
    pre_log_end: int,
) -> Option<&'static str> {
    if message_term(message).0 > pre_term.0 && !hard_state_persisted {
        Some(REASON_TERM_NOT_PERSISTED)
    } else if message is VoteRequest && !hard_state_persisted {
        Some(REASON_VOTE_NOT_PERSISTED)
    } else {
        match message {
            Message::AppendEntriesRequest(r) => if exists|j: int|
                0 <= j < r.entries@.len() && #[trigger] needs_persist(
                    r.entries@[j],
                    persisted_ids,
                    pre_log_end,
                ) {
                Some(REASON_ENTRIES_NOT_PERSISTED)
            } else {
                None
            },
            _ => None,
        }
    }
}

/// Whether a `PersistHardState` occurs among the first `n` actions.
pub open spec fn hard_state_seen<C>(actions: Seq<Action<C>>, n: int) -> bool
    decreases n,
{
    if n <= 0 {
        false
    } else {
        hard_state_seen(actions, n - 1) || actions[n - 1] is PersistHardState
    }
}

/// Ids of the entries persisted by the first `n` actions, in order.
pub open spec fn ids_seen<C>(actions: Seq<Action<C>>, n: int) -> Seq<LogId>
    decreases n,
{
    if n <= 0 {
        Seq::empty()
    } else {
        ids_seen(actions, n - 1) + match actions[n - 1] {
            Action::PersistLogEntries(es) => ids_of(es@),
            _ => Seq::empty(),
        }
    }
}

/// The writes queued by the first `n` actions, in order.
pub open spec fn writes_of<C>(actions: Seq<Action<C>>, n: int) -> Seq<PendingWrite<C>>
    decreases n,
{
    if n <= 0 {
        Seq::empty()
    } else {
        match actions[n - 1] {
            Action::PersistHardState { current_term, voted_for } => writes_of(actions, n - 1).push(
                PendingWrite::HardState { current_term, voted_for },
            ),
            Action::PersistLogEntries(es) => writes_of(actions, n - 1).push(
                PendingWrite::LogEntries(es),
            ),
            _ => writes_of(actions, n - 1),
        }
    }
}

/// The entries handed to the state machine by the first `n` actions.
pub open spec fn applied_of<C>(actions: Seq<Action<C>>, n: int) -> Seq<LogEntry<C>>
    decreases n,
{
    if n <= 0 {
        Seq::empty()
    } else {
        applied_of(actions, n - 1) + match actions[n - 1] {
            Action::Apply(es) => es@,
            _ => Seq::empty(),
        }
    }
}

/// The first `Send` among the first `n` actions that breaks persist
/// ordering, as the error that reports it.
pub open spec fn first_violation<C>(
    actions: Seq<Action<C>>,
    n: int,
    pre_term: Term,
    pre_log_end: int,
) -> Option<PersistOrderingError>
    decreases n,
{
    if n <= 0 {
        None
    } else {
        match first_violation(actions, n - 1, pre_term, pre_log_end) {
            Some(e) => Some(e),
            None => match actions[n - 1] {
                Action::Send { message, .. } => match ordering_violation(
                    message,
                    pre_term,
                    hard_state_seen(actions, n - 1),
                    ids_seen(actions, n - 1),
                    pre_log_end,
                ) {
                    Some(reason) => Some(
                        PersistOrderingError { send_index_in_actions: (n - 1) as usize, reason },
                    ),
                    None => None,
                },
                _ => None,
            },
        }
    }
}

/// `b` is a clone of the entries `a`: same length, same ids, cloned
/// commands.
pub open spec fn entries_cloned<C: Clone>(a: Seq<LogEntry<C>>, b: Seq<LogEntry<C>>) -> bool {
    &&& a.len() == b.len()
    &&& forall|i: int|
        #![trigger b[i]]
        0 <= i < a.len() ==> b[i].id == a[i].id && cloned(a[i].command, b[i].command)
}

/// `b` is a clone of the write `a`.
pub open spec fn write_cloned<C: Clone>(a: PendingWrite<C>, b: PendingWrite<C>) -> bool {
    match a {
        PendingWrite::HardState { current_term, voted_for } => b == PendingWrite::<C>::HardState {
            current_term,
            voted_for,
        },
        PendingWrite::LogEntries(x) => match b {
            PendingWrite::LogEntries(y) => entries_cloned(x@, y@),
            _ => false,
        },
    }
}

/// The durable log after writing one entry: it overwrites its own slot
/// (index `i` lives at position `i - 1`), or is appended when the slot is
/// past the end; index zero is skipped.
pub open spec fn apply_entry<C>(log: Seq<LogEntry<C>>, e: LogEntry<C>) -> Seq<LogEntry<C>> {
    let i = e.id.index.0;
    if i == 0 {
        log
    } else if i - 1 < log.len() {
        log.update(i - 1, e)
    } else {
        log.push(e)
    }
}

/// The durable log after writing `es` in order.
pub open spec fn apply_entries<C>(log: Seq<LogEntry<C>>, es: Seq<LogEntry<C>>) -> Seq<LogEntry<C>>
    decreases es.len(),
{
    if es.len() == 0 {
        log
    } else {
        apply_entry(apply_entries(log, es.drop_last()), es.last())
    }
}

/// The durable state after one pending write reaches disk.
pub open spec fn apply_write_spec<C>(p: PersistedView<C>, w: PendingWrite<C>) -> PersistedView<C> {
    match w {
        PendingWrite::HardState { current_term, voted_for } => PersistedView {
            current_term,
            voted_for,
            log: p.log,
        },
        PendingWrite::LogEntries(es) => PersistedView {
            current_term: p.current_term,
            voted_for: p.voted_for,
            log: apply_entries(p.log, es@),
        },
    }
}

/// The durable state after the writes `ws` reach disk in order.
pub open spec fn apply_writes<C>(p: PersistedView<C>, ws: Seq<PendingWrite<C>>) -> PersistedView<C>
    decreases ws.len(),
{
    if ws.len() == 0 {
        p
    } else {
        apply_write_spec(apply_writes(p, ws.drop_last()), ws.last())
    }
}

/// The smallest of a list of node ids, `None` for an empty list.
pub open spec fn is_smallest(peers: Seq<NodeId>, r: Option<NodeId>) -> bool {
    match r {
        None => peers.len() == 0,
        Some(p) => peers.contains(p) && forall|k: int| 0 <= k < peers.len() ==> p@ <= (
        #[trigger] peers[k])@,
    }
}

// ---------------------------------------------------------------------
// Proofs
// ---------------------------------------------------------------------

/// Once a violation is found among a prefix, longer prefixes report the
/// same one.
pub proof fn lemma_first_violation_stable<C>(
    actions: Seq<Action<C>>,
    n: int,
    m: int,
    pre_term: Term,
    pre_log_end: int,
)
    requires
        0 <= n <= m,
        first_violation(actions, n, pre_term, pre_log_end) is Some,
    ensures
        first_violation(actions, m, pre_term, pre_log_end) == first_violation(
            actions,
            n,
            pre_term,
            pre_log_end,
        ),
    decreases m - n,
{
    if n < m {
        lemma_first_violation_stable(actions, n, m - 1, pre_term, pre_log_end);
    }
}

/// A clone of a log entry keeps its id and clones its command.
proof fn lemma_entry_clone<C: Clone>(a: LogEntry<C>, b: LogEntry<C>)
    requires
        cloned(a, b),
    ensures
        b.id == a.id,
        cloned(a.command, b.command),
{
}

// ---------------------------------------------------------------------
// Executable code
// ---------------------------------------------------------------------

/// Whether an entry with id `id` is among `entries`.
fn contains_id<C>(entries: &[LogEntry<C>], id: LogId) -> (r: bool)
    ensures
        r == ids_of(entries@).contains(id),
{
    let mut k: usize = 0;
    while k < entries.len()
        invariant
            k <= entries@.len(),
            forall|j: int| 0 <= j < k ==> entries@[j].id != id,
        decreases entries@.len() - k,
    {
        if entries[k].id == id {
            assert(ids_of(entries@)[k as int] == id);
            return true;
        }
        k = k + 1;
    }
    assert forall|j: int| 0 <= j < ids_of(entries@).len() implies ids_of(entries@)[j] != id by {
        assert(ids_of(entries@)[j] == entries@[j].id);
    }
    false
}

/// Verify that any state change visible in `message` has a matching
/// persist earlier in the same step's actions.
pub fn check_send_ordering<C>(
    i: usize,
    message: &Message<C>,
    pre_term: Term,
    pre_voted_for: Option<NodeId>,
    pre_log_end: usize,
    hard_state_persisted: bool,
    entries_persisted: &[LogEntry<C>],
) -> (r: Result<(), PersistOrderingError>)
    ensures
        r == match ordering_violation(
            *message,
            pre_term,
            hard_state_persisted,
            ids_of(entries_persisted@),
            pre_log_end as int,
        ) {
            None => Ok(()),
            Some(reason) => Err(PersistOrderingError { send_index_in_actions: i, reason }),
        },
{
    let msg_term = match message {
        Message::VoteRequest(r) => r.term,
        Message::VoteResponse(r) => r.term,
        Message::AppendEntriesRequest(r) => r.term,
        Message::AppendEntriesResponse(r) => r.term,
    };
    if msg_term.get() > pre_term.get() && !hard_state_persisted {
        return Err(
            PersistOrderingError { send_index_in_actions: i, reason: REASON_TERM_NOT_PERSISTED },
        );
    }
    let is_vote_request = match message {
        Message::VoteRequest(_) => true,
        _ => false,
    };
    if is_vote_request && !hard_state_persisted {
        return Err(
            PersistOrderingError { send_index_in_actions: i, reason: REASON_VOTE_NOT_PERSISTED },
        );
    }
    if let Message::AppendEntriesRequest(r) = message {
        assert(*message == Message::AppendEntriesRequest(*r));
        let n = r.entries.len();
        let mut j: usize = 0;
        while j < n
            invariant
                n == r.entries@.len(),
                j <= n,
                *message == Message::AppendEntriesRequest(*r),
                !(message_term(*message).0 > pre_term.0 && !hard_state_persisted),
                forall|k: int|
                    0 <= k < j ==> !#[trigger] needs_persist(
                        r.entries@[k],
                        ids_of(entries_persisted@),
                        pre_log_end as int,
                    ),
            decreases n - j,
        {
            let entry = &r.entries[j];
            if !contains_id(entries_persisted, entry.id) {
                // Already durable before this step: nothing to persist.
                if entry.id.index.get() > pre_log_end as u64 {
                    assert(needs_persist(
                        r.entries@[j as int],
                        ids_of(entries_persisted@),
                        pre_log_end as int,
                    ));
                    assert(ordering_violation(
                        *message,
                        pre_term,
                        hard_state_persisted,
                        ids_of(entries_persisted@),
                        pre_log_end as int,
                    ) == Some(REASON_ENTRIES_NOT_PERSISTED));
                    return Err(
                        PersistOrderingError {
                            send_index_in_actions: i,
                            reason: REASON_ENTRIES_NOT_PERSISTED,
                        },
                    );
                }
            }
            j = j + 1;
        }
    }
    Ok(())
}

/// Apply a pending write to the durable state. Log entries overwrite at
/// their own indices, so a recovered engine re-sending the same prefix
/// does not duplicate it.
pub fn apply_write<C>(persisted: &mut PersistedState<C>, write: PendingWrite<C>)
    ensures
        final(persisted)@ == apply_write_spec(old(persisted)@, write),
{
    match write {
        PendingWrite::HardState { current_term, voted_for } => {
            persisted.current_term = current_term;
            persisted.voted_for = voted_for;
        },
        PendingWrite::LogEntries(entries) => {
            let ghost es = entries@;
            let ghost log0 = persisted.log@;
            for entry in it: entries
                invariant
                    it.seq() == es,
                    persisted.log@ == apply_entries(log0, es.take(it.index())),
                    persisted.current_term == old(persisted).current_term,
                    persisted.voted_for == old(persisted).voted_for,
            {
                proof {
                    assert(es.take(it.index() + 1).drop_last() == es.take(it.index()));
                    assert(es.take(it.index() + 1).last() == entry);
                }
                let i = entry.id.index.get();
                if i != 0 {
                    let n = persisted.log.len();
                    if i - 1 < n as u64 {
                        let k = (i - 1) as usize;
                        persisted.log.set(k, entry);
                    } else {
                        persisted.log.push(entry);
                    }
                }
            }
            assert(es.take(es.len() as int) == es);
        },
    }
}

/// The events that bring a freshly built engine back to the durable state
/// `persisted`: a synthetic `AppendEntries` at the persisted term from
/// `peer` carrying the whole persisted log, followed, when a vote was
/// persisted, by a `RequestVote` from the node voted for at the same term
/// so the engine records that vote again (the append leaves the engine
/// with no vote). Nothing when there is nothing to restore or no peer to
/// speak for.
pub fn hydration_events<C: Clone>(persisted: &PersistedState<C>, peer: Option<NodeId>) -> (events:
    Vec<Event<C>>)
    ensures
        hydration_events_result(*persisted, peer, events@),
{
    let mut events: Vec<Event<C>> = Vec::new();
    if persisted.current_term.get() == 0 && persisted.log.len() == 0 {
        return events;
    }
    let peer = match peer {
        Some(p) => p,
        None => return events,
    };
    let entries = persisted.log.clone();
    proof {
        assert forall|i: int| 0 <= i < entries@.len() implies #[trigger] entries@[i].id
            == persisted.log@[i].id && cloned(persisted.log@[i].command, entries@[i].command) by {
            lemma_entry_clone(persisted.log@[i], entries@[i]);
        }
    }
    let request = RequestAppendEntries {
        term: persisted.current_term,
        leader_id: peer,
        prev_log_id: None,
        entries,
        leader_commit: LogIndex::new(0),
    };
    events.push(Event::Incoming(Incoming { from: peer, message: Message::AppendEntriesRequest(request) }));
    if let Some(voted_for) = persisted.voted_for {
        let n = persisted.log.len();
        let last_log_id = if n > 0 {
            Some(persisted.log[n - 1].id)
        } else {
            None
        };
        events.push(
            Event::Incoming(
                Incoming {
                    from: voted_for,
                    message: Message::VoteRequest(
                        RequestVote { term: persisted.current_term, candidate_id: voted_for, last_log_id },
                    ),
                },
            ),
        );
    }
    events
}

/// The smallest id among `peers`: the first peer of the engine's ordered
/// peer set.
pub fn smallest_peer(peers: &Vec<NodeId>) -> (r: Option<NodeId>)
    ensures
        is_smallest(peers@, r),
{
    if peers.len() == 0 {
        return None;
    }
    let mut best = peers[0];
    let mut k: usize = 1;
    while k < peers.len()
        invariant
            1 <= k <= peers@.len(),
            peers@.contains(best),
            forall|j: int| 0 <= j < k ==> best@ <= (#[trigger] peers@[j])@,
        decreases peers@.len() - k,
    {
        if peers[k].get() < best.get() {
            best = peers[k];
        }
        k = k + 1;
    }
    Some(best)
}

impl<C, E> NodeHarness<C, E> {
    /// A node that is up with `engine`, has nothing durable yet, nothing
    /// pending and nothing applied.
    pub fn new(id: NodeId, peers: Vec<NodeId>, heartbeat_interval_ticks: u64, engine: E) -> (r: Self)
        ensures
            r.id == id,
            r.peers@ == peers@,
            r.engine == Some(engine),
            r.persisted.current_term == Term(0),
            r.persisted.voted_for is None,
            r.persisted.log@.len() == 0,
            r.pending@.len() == 0,
            r.applied@.len() == 0,
            r.heartbeat_interval_ticks == heartbeat_interval_ticks,
    {
        NodeHarness {
            id,
            peers,
            engine: Some(engine),
            persisted: PersistedState { current_term: Term(0), voted_for: None, log: Vec::new() },
            pending: Vec::new(),
            applied: Vec::new(),
            heartbeat_interval_ticks,
        }
    }

    /// Whether the node is running (not crashed).
    pub fn is_up(&self) -> (r: bool)
        ensures
            r == self.engine is Some,
    {
        self.engine.is_some()
    }

    /// Flush up to `n` pending writes, oldest first, into the durable
    /// state (all of them when `n` is at least the queue length).
    pub fn flush(&mut self, n: usize)
        ensures
            ({
                let take = if n < old(self).pending@.len() {
                    n as int
                } else {
                    old(self).pending@.len() as int
                };
                &&& final(self).persisted@ == apply_writes(
                    old(self).persisted@,
                    old(self).pending@.take(take),
                )
                &&& final(self).pending@ == old(self).pending@.skip(take)
            }),
            final(self).id == old(self).id,
            final(self).peers == old(self).peers,
            final(self).engine == old(self).engine,
            final(self).applied == old(self).applied,
            final(self).heartbeat_interval_ticks == old(self).heartbeat_interval_ticks,
    {
        let len = self.pending.len();
        let take = if n < len {
            n
        } else {
            len
        };
        let rest = self.pending.split_off(take);
        let mut drained = Vec::new();
        std::mem::swap(&mut drained, &mut self.pending);
        self.pending = rest;
        let ghost ws = drained@;
        let ghost p0 = self.persisted@;
        for write in it: drained
            invariant
                it.seq() == ws,
                self.persisted@ == apply_writes(p0, ws.take(it.index())),
                self.pending@ == old(self).pending@.skip(take as int),
                ws == old(self).pending@.take(take as int),
                p0 == old(self).persisted@,
                self.id == old(self).id,
                self.peers == old(self).peers,
                self.engine == old(self).engine,
                self.applied == old(self).applied,
                self.heartbeat_interval_ticks == old(self).heartbeat_interval_ticks,
        {
            proof {
                assert(ws.take(it.index() + 1).drop_last() == ws.take(it.index()));
                assert(ws.take(it.index() + 1).last() == write);
            }
            apply_write(&mut self.persisted, write);
        }
        assert(ws.take(ws.len() as int) == ws);
    }

    /// Drop the engine and any pending (unflushed) writes. The durable
    /// state and the applied entries stay.
    pub fn crash(&mut self)
        ensures
            final(self).engine is None,
            final(self).pending@.len() == 0,
            final(self).persisted == old(self).persisted,
            final(self).applied == old(self).applied,
            final(self).id == old(self).id,
            final(self).peers == old(self).peers,
            final(self).heartbeat_interval_ticks == old(self).heartbeat_interval_ticks,
    {
        self.engine = None;
        self.pending.clear();
    }
}

impl<C: Clone, E> NodeHarness<C, E> {
    /// Bring a crashed node back up on `engine`, a freshly built engine,
    /// and return the events that restore it to the durable state (see
    /// [`hydration_events`]); the caller steps the engine through them.
    /// A node that is already up is left alone and nothing is returned.
    /// Applied entries are not reset: the safety checker still compares
    /// post-recovery applies against pre-crash ones.
    pub fn recover(&mut self, engine: E) -> (events: Vec<Event<C>>)
        ensures
            old(self).engine is Some ==> final(self).engine == old(self).engine && events@.len()
                == 0,
            old(self).engine is None ==> final(self).engine == Some(engine) && exists|
                peer: Option<NodeId>,
            |
                is_smallest(old(self).peers@, peer) && #[trigger] hydration_events_result(
                    old(self).persisted,
                    peer,
                    events@,
                ),
            final(self).persisted == old(self).persisted,
            final(self).pending == old(self).pending,
            final(self).applied == old(self).applied,
            final(self).id == old(self).id,
            final(self).peers == old(self).peers,
            final(self).heartbeat_interval_ticks == old(self).heartbeat_interval_ticks,
    {
        if self.engine.is_some() {
            return Vec::new();
        }
        let peer = smallest_peer(&self.peers);
        let events = hydration_events(&self.persisted, peer);
        self.engine = Some(engine);
        events
    }

    /// Scan `actions` for ordering correctness (persist before send),
    /// queue each persist into `pending`, and append each applied entry
    /// to `applied`. Stops at the first `Send` whose prerequisite persist
    /// was not ordered earlier in the vector and reports it; what came
    /// before it has been absorbed.
    pub fn absorb(&mut self, actions: &[Action<C>]) -> (r: Result<(), PersistOrderingError>)
        ensures
            r == match first_violation(
                actions@,
                actions@.len() as int,
                old(self).persisted.current_term,
                old(self).persisted.log@.len() as int,
            ) {
                None => Ok(()),
                Some(e) => Err(e),
            },
            ({
                let k = match r {
                    Ok(_) => actions@.len() as int,
                    Err(e) => e.send_index_in_actions as int,
                };
                let ws = writes_of(actions@, k);
                let ap = applied_of(actions@, k);
                let n0 = old(self).pending@.len();
                let a0 = old(self).applied@.len();
                &&& final(self).pending@.len() == n0 + ws.len()
                &&& final(self).pending@.take(n0 as int) == old(self).pending@
                &&& forall|j: int|
                    0 <= j < ws.len() ==> write_cloned(
                        ws[j],
                        #[trigger] final(self).pending@[n0 + j],
                    )
                &&& final(self).applied@.take(a0 as int) == old(self).applied@
                &&& entries_cloned(ap, final(self).applied@.skip(a0 as int))
            }),
            final(self).persisted == old(self).persisted,
            final(self).engine == old(self).engine,
            final(self).id == old(self).id,
            final(self).peers == old(self).peers,
            final(self).heartbeat_interval_ticks == old(self).heartbeat_interval_ticks,
    {
        let mut hard_state_persisted_this_step = false;
        let mut entries_persisted_this_step: Vec<LogEntry<C>> = Vec::new();
        let pre_step_term = self.persisted.current_term;
        let pre_step_voted_for = self.persisted.voted_for;
        let pre_step_log_end = self.persisted.log.len();
        let ghost acts = actions@;
        let ghost n0 = self.pending@.len();
        let ghost a0 = self.applied@.len();
        let mut i: usize = 0;
        while i < actions.len()
            invariant
                acts == actions@,
                i <= acts.len(),
                pre_step_term == old(self).persisted.current_term,
                pre_step_log_end == old(self).persisted.log@.len(),
                n0 == old(self).pending@.len(),
                a0 == old(self).applied@.len(),
                hard_state_persisted_this_step == hard_state_seen(acts, i as int),
                ids_of(entries_persisted_this_step@) == ids_seen(acts, i as int),
                first_violation(acts, i as int, pre_step_term, pre_step_log_end as int) is None,
                self.pending@.len() == n0 + writes_of(acts, i as int).len(),
                self.pending@.take(n0 as int) == old(self).pending@,
                forall|j: int|
                    0 <= j < writes_of(acts, i as int).len() ==> write_cloned(
                        writes_of(acts, i as int)[j],
                        #[trigger] self.pending@[n0 + j],
                    ),
                self.applied@.len() >= a0,
                self.applied@.take(a0 as int) == old(self).applied@,
                entries_cloned(applied_of(acts, i as int), self.applied@.skip(a0 as int)),
                self.persisted == old(self).persisted,
                self.engine == old(self).engine,
                self.id == old(self).id,
                self.peers == old(self).peers,
                self.heartbeat_interval_ticks == old(self).heartbeat_interval_ticks,
            decreases acts.len() - i,
        {
            let ghost pending_before = self.pending@;
            let ghost applied_before = self.applied@;
            let ghost persisted_before = entries_persisted_this_step@;
            match &actions[i] {
                Action::PersistHardState { current_term, voted_for } => {
                    self.pending.push(
                        PendingWrite::HardState { current_term: *current_term, voted_for: *voted_for },
                    );
                    hard_state_persisted_this_step = true;
                    proof {
                        assert(writes_of(acts, i + 1) == writes_of(acts, i as int).push(
                            PendingWrite::HardState {
                                current_term: *current_term,
                                voted_for: *voted_for,
                            },
                        ));
                        assert(ids_seen(acts, i + 1) == ids_seen(acts, i as int));
                        assert(applied_of(acts, i + 1) == applied_of(acts, i as int));
                        assert(self.pending@.take(n0 as int) == pending_before.take(n0 as int));
                        assert forall|j: int|
                            0 <= j < writes_of(acts, i + 1).len() implies write_cloned(
                            writes_of(acts, i + 1)[j],
                            #[trigger] self.pending@[n0 + j],
                        ) by {
                            if j < writes_of(acts, i as int).len() {
                                assert(self.pending@[n0 + j] == pending_before[n0 + j]);
                            }
                        }
                    }
                },
                Action::PersistLogEntries(entries) => {
                    let copy = entries.clone();
                    proof {
                        assert forall|k: int| 0 <= k < copy@.len() implies #[trigger] copy@[k].id
                            == entries@[k].id && cloned(entries@[k].command, copy@[k].command) by {
                            lemma_entry_clone(entries@[k], copy@[k]);
                        }
                    }
                    self.pending.push(PendingWrite::LogEntries(copy));
                    entries_persisted_this_step.extend_from_slice(entries.as_slice());
                    proof {
                        let es = entries@;
                        assert forall|k: int| 0 <= k < es.len() implies #[trigger] entries_persisted_this_step@[persisted_before.len() + k].id
                            == es[k].id by {
                            lemma_entry_clone(es[k], entries_persisted_this_step@[persisted_before.len() + k]);
                        }
                        assert(ids_of(entries_persisted_this_step@) == ids_of(persisted_before)
                            + ids_of(es));
                        assert(ids_seen(acts, i + 1) == ids_seen(acts, i as int) + ids_of(es));
                        assert(writes_of(acts, i + 1) == writes_of(acts, i as int).push(
                            PendingWrite::LogEntries(*entries),
                        ));
                        assert(applied_of(acts, i + 1) == applied_of(acts, i as int));
                        assert(hard_state_seen(acts, i + 1) == hard_state_seen(acts, i as int));
                        assert(self.pending@.take(n0 as int) == pending_before.take(n0 as int));
                        assert forall|j: int|
                            0 <= j < writes_of(acts, i + 1).len() implies write_cloned(
                            writes_of(acts, i + 1)[j],
                            #[trigger] self.pending@[n0 + j],
                        ) by {
                            if j < writes_of(acts, i as int).len() {
                                assert(self.pending@[n0 + j] == pending_before[n0 + j]);
                            }
                        }
                    }
                },
                Action::Send { message, .. } => {
                    let res = check_send_ordering(
                        i,
                        message,
                        pre_step_term,
                        pre_step_voted_for,
                        pre_step_log_end,
                        hard_state_persisted_this_step,
                        entries_persisted_this_step.as_slice(),
                    );
                    match res {
                        Ok(()) => {},
                        Err(e) => {
                            proof {
                                assert(first_violation(
                                    acts,
                                    i + 1,
                                    pre_step_term,
                                    pre_step_log_end as int,
                                ) == Some(e));
                                lemma_first_violation_stable(
                                    acts,
                                    i + 1,
                                    acts.len() as int,
                                    pre_step_term,
                                    pre_step_log_end as int,
                                );
                            }
                            return Err(e);
                        },
                    }
                    proof {
                        assert(writes_of(acts, i + 1) == writes_of(acts, i as int));
                        assert(ids_seen(acts, i + 1) == ids_seen(acts, i as int));
                        assert(applied_of(acts, i + 1) == applied_of(acts, i as int));
                        assert(hard_state_seen(acts, i + 1) == hard_state_seen(acts, i as int));
                    }
                },
                Action::Apply(entries) => {
                    self.applied.extend_from_slice(entries.as_slice());
                    proof {
                        let es = entries@;
                        let prev = applied_of(acts, i as int);
                        let now = self.applied@.skip(a0 as int);
                        assert(applied_of(acts, i + 1) == prev + es);
                        assert(applied_before.len() == a0 + prev.len());
                        assert forall|k: int| 0 <= k < applied_before.len() implies #[trigger] self.applied@[k]
                            == applied_before[k] by {}
                        assert(self.applied@.take(a0 as int) =~= applied_before.take(a0 as int));
                        assert forall|k: int|
                            #![trigger now[k]]
                            0 <= k < prev.len() + es.len() implies now[k].id == (prev + es)[k].id
                            && cloned((prev + es)[k].command, now[k].command) by {
                            assert(now[k] == self.applied@[a0 + k]);
                            if k < prev.len() {
                                assert(self.applied@[a0 + k] == applied_before[a0 + k]);
                                assert(applied_before.skip(a0 as int)[k] == applied_before[a0 + k]);
                            } else {
                                lemma_entry_clone(es[k - prev.len()], self.applied@[a0 + k]);
                            }
                        }
                        assert(writes_of(acts, i + 1) == writes_of(acts, i as int));
                        assert(ids_seen(acts, i + 1) == ids_seen(acts, i as int));
                        assert(hard_state_seen(acts, i + 1) == hard_state_seen(acts, i as int));
                    }
                },
                _ => {
                    proof {
                        assert(writes_of(acts, i + 1) == writes_of(acts, i as int));
                        assert(ids_seen(acts, i + 1) == ids_seen(acts, i as int));
                        assert(applied_of(acts, i + 1) == applied_of(acts, i as int));
                        assert(hard_state_seen(acts, i + 1) == hard_state_seen(acts, i as int));
                    }
                },
            }
            i = i + 1;
        }
        Ok(())
    }
}

/// The id of the last entry of `log`, `None` when it is empty.
pub open spec fn last_id_of<C>(log: Seq<LogEntry<C>>) -> Option<LogId> {
    if log.len() > 0 {
        Some(log.last().id)
    } else {
        None
    }
}

/// The event that replays a vote for `v` at `term`.
pub open spec fn vote_request_event<C>(term: Term, v: NodeId, log: Seq<LogEntry<C>>) -> Event<C> {
    Event::Incoming(
        Incoming {
            from: v,
            message: Message::VoteRequest(
                RequestVote { term, candidate_id: v, last_log_id: last_id_of(log) },
            ),
        },
    )
}

/// `e` is the synthetic append from `p` at `term` carrying a clone of `log`.
pub open spec fn is_hydrating_append<C: Clone>(
    e: Event<C>,
    p: NodeId,
    term: Term,
    log: Seq<LogEntry<C>>,
) -> bool {
    match e {
        Event::Incoming(inc) => inc.from == p && match inc.message {
            Message::AppendEntriesRequest(r) => {
                &&& r.term == term
                &&& r.leader_id == p
                &&& r.prev_log_id is None
                &&& r.leader_commit.0 == 0
                &&& entries_cloned(log, r.entries@)
            },
            _ => false,
        },
        _ => false,
    }
}

/// `events` is what [`hydration_events`] returns for `persisted` and
/// `peer`.
pub open spec fn hydration_events_result<C: Clone>(
    persisted: PersistedState<C>,
    peer: Option<NodeId>,
    events: Seq<Event<C>>,
) -> bool {
    if (persisted.current_term.0 == 0 && persisted.log@.len() == 0) || peer is None {
        events.len() == 0
    } else {
        let p = peer->0;
        let term = persisted.current_term;
        &&& is_hydrating_append(events[0], p, term, persisted.log@)
        &&& match persisted.voted_for {
            Some(v) => events.len() == 2 && events[1] == vote_request_event(term, v, persisted.log@),
            None => events.len() == 1,
        }
    }
}

/// `es` is a run of entries numbered `start, start + 1, ...`.
pub open spec fn numbered_from<C>(es: Seq<LogEntry<C>>, start: int) -> bool {
    forall|k: int| 0 <= k < es.len() ==> #[trigger] es[k].id.index.0 == start + k
}

/// `log` with the slots `start - 1 ..` overwritten (or extended) by `es`.
pub open spec fn overlay<C>(log: Seq<LogEntry<C>>, es: Seq<LogEntry<C>>, start: int) -> Seq<
    LogEntry<C>,
> {
    let lo = start - 1;
    let hi = lo + es.len();
    Seq::new(
        if hi > log.len() {
            hi as nat
        } else {
            log.len()
        },
        |k: int|
            if lo <= k < hi {
                es[k - lo]
            } else {
                log[k]
            },
    )
}

/// Writing a run of entries that starts inside the durable log (or right
/// after it) overwrites exactly their own slots.
pub proof fn lemma_apply_entries_overlay<C>(log: Seq<LogEntry<C>>, es: Seq<LogEntry<C>>, start: int)
    requires
        1 <= start <= log.len() + 1,
        numbered_from(es, start),
    ensures
        apply_entries(log, es) == overlay(log, es, start),
    decreases es.len(),
{
    if es.len() > 0 {
        let init = es.drop_last();
        assert(numbered_from(init, start)) by {
            assert forall|k: int| 0 <= k < init.len() implies #[trigger] init[k].id.index.0 == start
                + k by {
                assert(init[k] == es[k]);
            }
        }
        lemma_apply_entries_overlay(log, init, start);
        assert(es.last().id.index.0 == start + es.len() - 1);
        assert(apply_entry(overlay(log, init, start), es.last()) =~= overlay(log, es, start));
    } else {
        assert(overlay(log, es, start) =~= log);
    }
}

/// Re-writing the same run of entries changes nothing: a recovered engine
/// that re-sends a prefix it already persisted does not duplicate it.
pub proof fn lemma_rewrite_is_idempotent<C>(log: Seq<LogEntry<C>>, es: Seq<LogEntry<C>>, start: int)
    requires
        1 <= start <= log.len() + 1,
        numbered_from(es, start),
    ensures
        apply_entries(apply_entries(log, es), es) == apply_entries(log, es),
{
    lemma_apply_entries_overlay(log, es, start);
    let once = overlay(log, es, start);
    lemma_apply_entries_overlay(once, es, start);
    assert(overlay(once, es, start) =~= once);
}

/// Flushing the same write twice leaves the durable state as flushing it
/// once, for a hard-state write and for a run of entries that starts
/// inside the durable log or right after it.
pub proof fn lemma_write_twice_same_as_once<C>(p: PersistedView<C>, w: PendingWrite<C>, start: int)
    requires
        w matches PendingWrite::LogEntries(es) ==> 1 <= start <= p.log.len() + 1 && numbered_from(
            es@,
            start,
        ),
    ensures
        apply_write_spec(apply_write_spec(p, w), w) == apply_write_spec(p, w),
{
    match w {
        PendingWrite::HardState { .. } => {},
        PendingWrite::LogEntries(es) => {
            lemma_rewrite_is_idempotent(p.log, es@, start);
        },
    }
}

/// A hard-state write makes the durable term and vote exactly the written
/// ones, whatever was durable before (a written "no vote" clears the vote),
/// and leaves the durable log alone.
pub proof fn lemma_hard_state_write_overwrites<C>(
    p: PersistedView<C>,
    current_term: Term,
    voted_for: Option<NodeId>,
)
    ensures
        apply_write_spec(p, PendingWrite::HardState { current_term, voted_for }).current_term
            == current_term,
        apply_write_spec(p, PendingWrite::HardState { current_term, voted_for }).voted_for
            == voted_for,
        apply_write_spec(p, PendingWrite::HardState { current_term, voted_for }).log == p.log,
{
}

/// An entries write leaves the durable term and vote alone.
pub proof fn lemma_entries_write_keeps_hard_state<C>(p: PersistedView<C>, es: Vec<LogEntry<C>>)
    ensures
        apply_write_spec(p, PendingWrite::LogEntries(es)).current_term == p.current_term,
        apply_write_spec(p, PendingWrite::LogEntries(es)).voted_for == p.voted_for,
{
}

/// A written entry with index `i` (not zero) lands in slot `i - 1` when
/// that slot exists or is the next one, and every other slot keeps what it
/// held.
pub proof fn lemma_entry_lands_in_its_slot<C>(log: Seq<LogEntry<C>>, e: LogEntry<C>)
    requires
        1 <= e.id.index.0 <= log.len() + 1,
    ensures
        apply_entry(log, e).len() == if e.id.index.0 == log.len() + 1 {
            log.len() + 1int
        } else {
            log.len() as int
        },
        apply_entry(log, e)[e.id.index.0 - 1] == e,
        forall|k: int|
            0 <= k < log.len() && k != e.id.index.0 - 1 ==> #[trigger] apply_entry(log, e)[k]
                == log[k],
{
}

/// Any message that shows a term newer than the durable one, sent with no
/// hard state persisted earlier in the step, is refused for that reason,
/// whatever its kind: the term checked is the term the message carries.
pub proof fn lemma_newer_term_needs_hard_state<C>(
    m: Message<C>,
    pre_term: Term,
    persisted_ids: Seq<LogId>,
    pre_log_end: int,
)
    ensures
        m matches Message::VoteRequest(r) && r.term.0 > pre_term.0 ==> ordering_violation(
            m,
            pre_term,
            false,
            persisted_ids,
            pre_log_end,
        ) == Some(REASON_TERM_NOT_PERSISTED),
        m matches Message::VoteResponse(r) && r.term.0 > pre_term.0 ==> ordering_violation(
            m,
            pre_term,
            false,
            persisted_ids,
            pre_log_end,
        ) == Some(REASON_TERM_NOT_PERSISTED),
        m matches Message::AppendEntriesRequest(r) && r.term.0 > pre_term.0 ==> ordering_violation(
            m,
            pre_term,
            false,
            persisted_ids,
            pre_log_end,
        ) == Some(REASON_TERM_NOT_PERSISTED),
        m matches Message::AppendEntriesResponse(r) && r.term.0 > pre_term.0 ==> ordering_violation(
            m,
            pre_term,
            false,
            persisted_ids,
            pre_log_end,
        ) == Some(REASON_TERM_NOT_PERSISTED),
{
}

/// A response (to a vote or to an append) is refused exactly when it shows
/// a term newer than the durable one with no hard state persisted earlier
/// in the step.
pub proof fn lemma_response_refused_iff_newer_term<C>(
    m: Message<C>,
    pre_term: Term,
    hard_state_persisted: bool,
    persisted_ids: Seq<LogId>,
    pre_log_end: int,
)
    ensures
        m matches Message::VoteResponse(r) ==> (ordering_violation(
            m,
            pre_term,
            hard_state_persisted,
            persisted_ids,
            pre_log_end,
        ) is Some <==> (r.term.0 > pre_term.0 && !hard_state_persisted)),
        m matches Message::AppendEntriesResponse(r) ==> (ordering_violation(
            m,
            pre_term,
            hard_state_persisted,
            persisted_ids,
            pre_log_end,
        ) is Some <==> (r.term.0 > pre_term.0 && !hard_state_persisted)),
{
}

} // verus!
