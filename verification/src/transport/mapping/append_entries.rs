//! Conversions between the engine's log-replication records and their wire
//! form. Encoding never fails; decoding checks that every required field is
//! present and that node ids are non-zero.
use vstd::prelude::*;

use crate::records::append_entries::{AppendEntriesResponse, AppendEntriesResult, RequestAppendEntries};
use crate::records::log_entry::{LogEntry, LogPayload};
use crate::transport::mapping::ConvertError;
use crate::transport::protobuf as proto;
use crate::types::index::LogIndex;
use crate::types::log_id::LogId;
use crate::types::node::NodeId;
use crate::types::term::Term;
use vstd::std_specs::convert::{FromSpec, IntoSpec};

verus! {

/// Name of the missing field reported for an entry without payload.
pub const FIELD_LOG_ENTRY_PAYLOAD: &'static str = "LogEntry.payload";

/// Name of the missing field reported for an entry without id.
pub const FIELD_LOG_ENTRY_ID: &'static str = "LogEntry.id";

/// Name of the missing field reported for a response without result.
pub const FIELD_APPEND_ENTRIES_RESPONSE_RESULT: &'static str = "AppendEntriesResponse.result";

pub open spec fn spec_log_id_to_proto(v: LogId) -> proto::LogId {
    proto::LogId { index: v.index.0, term: v.term.0 }
}

pub open spec fn spec_log_id_from_proto(v: proto::LogId) -> LogId {
    LogId { index: LogIndex(v.index), term: Term(v.term) }
}

pub open spec fn spec_opt_log_id_to_proto(v: Option<LogId>) -> Option<proto::LogId> {
    match v {
        Some(id) => Some(spec_log_id_to_proto(id)),
        None => None,
    }
}

pub open spec fn spec_opt_log_id_from_proto(v: Option<proto::LogId>) -> Option<LogId> {
    match v {
        Some(id) => Some(spec_log_id_from_proto(id)),
        None => None,
    }
}

/// Why a wire entry cannot be decoded, if it cannot: the payload is
/// checked first, then the id.
pub open spec fn entry_error(w: proto::LogEntry) -> Option<ConvertError> {
    if w.payload is None {
        Some(ConvertError::MissingField(FIELD_LOG_ENTRY_PAYLOAD))
    } else if w.id is None {
        Some(ConvertError::MissingField(FIELD_LOG_ENTRY_ID))
    } else {
        None
    }
}

/// The first error met when decoding a list of wire entries in order.
pub open spec fn first_entry_error(es: Seq<proto::LogEntry>) -> Option<ConvertError>
    decreases es.len(),
{
    if es.len() == 0 {
        None
    } else {
        match first_entry_error(es.drop_last()) {
            Some(e) => Some(e),
            None => entry_error(es.last()),
        }
    }
}

/// `w` is the wire form of `e`: both sub-messages present, the same id,
/// the same kind of payload, and a command turned into bytes by the
/// command type's `Into<Vec<u8>>` (whose result is known where that
/// conversion follows its spec).
pub open spec fn entry_encoded<C: Into<Vec<u8>>>(e: LogEntry<LogPayload<C>>, w: proto::LogEntry) -> bool {
    &&& w.id == Some(spec_log_id_to_proto(e.id))
    &&& match e.command {
        LogPayload::Noop => w.payload == Some(proto::Payload::Noop(proto::Noop {  })),
        LogPayload::Command(c) => match w.payload {
            Some(proto::Payload::Command(b)) => C::obeys_into_spec() ==> b == c.into_spec(),
            _ => false,
        },
    }
}

/// `e` is what the wire entry `w` decodes to: the same id, the same kind
/// of payload, and a command built from the bytes by the command type's
/// `From<Vec<u8>>` (whose result is known where that conversion follows
/// its spec).
pub open spec fn entry_decoded<C: From<Vec<u8>>>(w: proto::LogEntry, e: LogEntry<LogPayload<C>>) -> bool {
    &&& w.id matches Some(id) && e.id == spec_log_id_from_proto(id)
    &&& match w.payload {
        Some(proto::Payload::Noop(_)) => e.command is Noop,
        Some(proto::Payload::Command(b)) => match e.command {
            LogPayload::Command(c) => C::obeys_from_spec() ==> c == C::from_spec(b),
            _ => false,
        },
        None => false,
    }
}

/// `ws` is the wire form of `es`, entry by entry.
pub open spec fn entries_encoded<C: Into<Vec<u8>>>(es: Seq<LogEntry<LogPayload<C>>>, ws: Seq<proto::LogEntry>) -> bool {
    &&& ws.len() == es.len()
    &&& forall|k: int| 0 <= k < es.len() ==> #[trigger] entry_encoded(es[k], ws[k])
}

/// `es` is what the wire entries `ws` decode to, entry by entry.
pub open spec fn entries_decoded<C: From<Vec<u8>>>(ws: Seq<proto::LogEntry>, es: Seq<LogEntry<LogPayload<C>>>) -> bool {
    &&& es.len() == ws.len()
    &&& forall|k: int| 0 <= k < ws.len() ==> #[trigger] entry_decoded(ws[k], es[k])
}

pub open spec fn spec_result_to_proto(r: AppendEntriesResult) -> proto::AppendResult {
    match r {
        AppendEntriesResult::Success { last_appended } => proto::AppendResult::Success(
            proto::AppendSuccess {
                last_appended: match last_appended {
                    Some(i) => Some(i.0),
                    None => None,
                },
            },
        ),
        AppendEntriesResult::Conflict { next_index_hint } => proto::AppendResult::Conflict(
            proto::AppendConflict { next_index_hint: next_index_hint.0 },
        ),
    }
}

pub open spec fn spec_result_from_proto(r: proto::AppendResult) -> AppendEntriesResult {
    match r {
        proto::AppendResult::Success(s) => AppendEntriesResult::Success {
            last_appended: match s.last_appended {
                Some(i) => Some(LogIndex(i)),
                None => None,
            },
        },
        proto::AppendResult::Conflict(c) => AppendEntriesResult::Conflict {
            next_index_hint: LogIndex(c.next_index_hint),
        },
    }
}

pub open spec fn spec_append_entries_response_to_proto(v: AppendEntriesResponse) -> proto::AppendEntriesResponse {
    proto::AppendEntriesResponse { term: v.term.0, result: Some(spec_result_to_proto(v.result)) }
}

pub open spec fn spec_append_entries_response_from_proto(v: proto::AppendEntriesResponse) -> Result<
    AppendEntriesResponse,
    ConvertError,
> {
    match v.result {
        None => Err(ConvertError::MissingField(FIELD_APPEND_ENTRIES_RESPONSE_RESULT)),
        Some(r) => Ok(AppendEntriesResponse { term: Term(v.term), result: spec_result_from_proto(r) }),
    }
}

pub fn log_id_to_proto(v: LogId) -> (r: proto::LogId)
    ensures
        r == spec_log_id_to_proto(v),
{
    proto::LogId { index: v.index.get(), term: v.term.get() }
}

pub fn log_id_from_proto(v: proto::LogId) -> (r: LogId)
    ensures
        r == spec_log_id_from_proto(v),
{
    LogId { index: LogIndex::new(v.index), term: Term::new(v.term) }
}

fn opt_log_id_to_proto(v: Option<LogId>) -> (r: Option<proto::LogId>)
    ensures
        r == spec_opt_log_id_to_proto(v),
{
    match v {
        Some(id) => Some(log_id_to_proto(id)),
        None => None,
    }
}

fn opt_log_id_from_proto(v: Option<proto::LogId>) -> (r: Option<LogId>)
    ensures
        r == spec_opt_log_id_from_proto(v),
{
    match v {
        Some(id) => Some(log_id_from_proto(id)),
        None => None,
    }
}

/// Encode an entry for the wire; the command is turned into bytes by its
/// `Into<Vec<u8>>`.
pub fn log_entry_to_proto<C: Into<Vec<u8>>>(v: LogEntry<LogPayload<C>>) -> (r: proto::LogEntry)
    ensures
        entry_encoded(v, r),
{
    let payload = match v.command {
        LogPayload::Noop => proto::Payload::Noop(proto::Noop {  }),
        LogPayload::Command(c) => proto::Payload::Command(c.into()),
    };
    proto::LogEntry { id: Some(log_id_to_proto(v.id)), payload: Some(payload) }
}

/// Decode an entry from the wire; fails on a missing payload or id. The
/// command is built from the bytes by its `From<Vec<u8>>`.
pub fn log_entry_from_proto<C: From<Vec<u8>>>(v: proto::LogEntry) -> (r: Result<
    LogEntry<LogPayload<C>>,
    ConvertError,
>)
    ensures
        match entry_error(v) {
            Some(e) => r == Err::<LogEntry<LogPayload<C>>, ConvertError>(e),
            None => r matches Ok(x) && entry_decoded(v, x),
        },
{
    let payload = match v.payload {
        None => return Err(ConvertError::MissingField(FIELD_LOG_ENTRY_PAYLOAD)),
        Some(proto::Payload::Noop(_)) => LogPayload::Noop,
        Some(proto::Payload::Command(b)) => LogPayload::Command(C::from(b)),
    };
    let id = match v.id {
        None => return Err(ConvertError::MissingField(FIELD_LOG_ENTRY_ID)),
        Some(id) => log_id_from_proto(id),
    };
    Ok(LogEntry { id, command: payload })
}

/// Encode an `AppendEntries` request for the wire, entries in order.
pub fn request_append_entries_to_proto<C: Into<Vec<u8>>>(v: RequestAppendEntries<LogPayload<C>>) -> (r:
    proto::RequestAppendEntries)
    ensures
        r.term == v.term.0,
        r.leader_id == v.leader_id@,
        r.prev_log_id == spec_opt_log_id_to_proto(v.prev_log_id),
        entries_encoded(v.entries@, r.entries@),
        r.leader_commit == v.leader_commit.0,
{
    let ghost src = v.entries@;
    let mut entries: Vec<proto::LogEntry> = Vec::new();
    for e in it: v.entries
        invariant
            it.seq() == src,
            entries_encoded(src.take(it.index()), entries@),
    {
        let ghost before = entries@;
        entries.push(log_entry_to_proto(e));
        proof {
            let n = it.index();
            assert(src.take(n + 1)[n] == e);
            assert forall|k: int| 0 <= k < n + 1 implies #[trigger] entry_encoded(
                src.take(n + 1)[k],
                entries@[k],
            ) by {
                if k < n {
                    assert(src.take(n + 1)[k] == src.take(n)[k]);
                    assert(entries@[k] == before[k]);
                }
            }
        }
    }
    assert(src.take(src.len() as int) == src);
    proto::RequestAppendEntries {
        term: v.term.get(),
        leader_id: v.leader_id.get(),
        prev_log_id: opt_log_id_to_proto(v.prev_log_id),
        entries,
        leader_commit: v.leader_commit.get(),
    }
}

/// Decode an `AppendEntries` request from the wire. A zero leader id is
/// refused first; then the entries are decoded in order and the first
/// failing one decides the error.
pub fn request_append_entries_from_proto<C: From<Vec<u8>>>(v: proto::RequestAppendEntries) -> (r: Result<
    RequestAppendEntries<LogPayload<C>>,
    ConvertError,
>)
    ensures
        v.leader_id == 0 ==> r == Err::<RequestAppendEntries<LogPayload<C>>, _>(
            ConvertError::ZeroNodeId,
        ),
        v.leader_id != 0 ==> match first_entry_error(v.entries@) {
            Some(e) => r == Err::<RequestAppendEntries<LogPayload<C>>, _>(e),
            None => r matches Ok(req) && req.term == Term(v.term) && req.leader_id@
                == v.leader_id && req.prev_log_id == spec_opt_log_id_from_proto(v.prev_log_id)
                && entries_decoded(v.entries@, req.entries@) && req.leader_commit == LogIndex(
                v.leader_commit,
            ),
        },
{
    let leader_id = match NodeId::new(v.leader_id) {
        Some(id) => id,
        None => return Err(ConvertError::ZeroNodeId),
    };
    let ghost src = v.entries@;
    let mut entries: Vec<LogEntry<LogPayload<C>>> = Vec::new();
    for e in it: v.entries
        invariant
            it.seq() == src,
            first_entry_error(src.take(it.index())) is None,
            entries_decoded(src.take(it.index()), entries@),
            v.leader_id != 0,
    {
        let ghost n = it.index();
        let ghost before = entries@;
        proof {
            assert(src.take(n + 1).drop_last() == src.take(n));
            assert(src.take(n + 1).last() == e);
        }
        match log_entry_from_proto(e) {
            Ok(entry) => entries.push(entry),
            Err(err) => {
                proof {
                    lemma_first_entry_error_stable(src, n + 1);
                }
                return Err(err);
            },
        }
        proof {
            assert forall|k: int| 0 <= k < n + 1 implies #[trigger] entry_decoded(
                src.take(n + 1)[k],
                entries@[k],
            ) by {
                if k < n {
                    assert(src.take(n + 1)[k] == src.take(n)[k]);
                    assert(entries@[k] == before[k]);
                }
            }
        }
    }
    assert(src.take(src.len() as int) == src);
    Ok(
        RequestAppendEntries {
            term: Term::new(v.term),
            leader_id,
            prev_log_id: opt_log_id_from_proto(v.prev_log_id),
            entries,
            leader_commit: LogIndex::new(v.leader_commit),
        },
    )
}

/// Once a prefix of a wire list fails to decode, the whole list fails with
/// the same error.
pub proof fn lemma_first_entry_error_stable(es: Seq<proto::LogEntry>, n: int)
    requires
        0 <= n <= es.len(),
        first_entry_error(es.take(n)) is Some,
    ensures
        first_entry_error(es) == first_entry_error(es.take(n)),
    decreases es.len() - n,
{
    if n < es.len() {
        assert(es.take(n + 1).drop_last() == es.take(n));
        lemma_first_entry_error_stable(es, n + 1);
    } else {
        assert(es.take(n) == es);
    }
}

/// Encode an `AppendEntries` response for the wire.
pub fn append_entries_response_to_proto(v: AppendEntriesResponse) -> (r:
    proto::AppendEntriesResponse)
    ensures
        r == spec_append_entries_response_to_proto(v),
{
    let result = match v.result {
        AppendEntriesResult::Success { last_appended } => proto::AppendResult::Success(
            proto::AppendSuccess {
                last_appended: match last_appended {
                    Some(i) => Some(i.get()),
                    None => None,
                },
            },
        ),
        AppendEntriesResult::Conflict { next_index_hint } => proto::AppendResult::Conflict(
            proto::AppendConflict { next_index_hint: next_index_hint.get() },
        ),
    };
    proto::AppendEntriesResponse { term: v.term.get(), result: Some(result) }
}

/// Decode an `AppendEntries` response from the wire; fails when the result
/// is missing.
pub fn append_entries_response_from_proto(v: proto::AppendEntriesResponse) -> (r: Result<
    AppendEntriesResponse,
    ConvertError,
>)
    ensures
        r == spec_append_entries_response_from_proto(v),
{
    let result = match v.result {
        None => return Err(ConvertError::MissingField(FIELD_APPEND_ENTRIES_RESPONSE_RESULT)),
        Some(proto::AppendResult::Success(s)) => AppendEntriesResult::Success {
            last_appended: match s.last_appended {
                Some(i) => Some(LogIndex::new(i)),
                None => None,
            },
        },
        Some(proto::AppendResult::Conflict(c)) => AppendEntriesResult::Conflict {
            next_index_hint: LogIndex::new(c.next_index_hint),
        },
    };
    Ok(AppendEntriesResponse { term: Term::new(v.term), result })
}

/// The command type converts to bytes and back without loss, and both
/// conversions follow their specs.
pub open spec fn lossless_codec<C: Into<Vec<u8>> + From<Vec<u8>>>() -> bool {
    &&& C::obeys_into_spec()
    &&& C::obeys_from_spec()
    &&& forall|c: C| #[trigger] C::from_spec(c.into_spec()) == c
}

/// The bytes convert to a command and back without loss, and both
/// conversions follow their specs.
pub open spec fn lossless_bytes<C: Into<Vec<u8>> + From<Vec<u8>>>() -> bool {
    &&& C::obeys_into_spec()
    &&& C::obeys_from_spec()
    &&& forall|b: Vec<u8>| #[trigger] C::from_spec(b).into_spec() == b
}

/// Decoding what was encoded gives the entry back, when the command type's
/// byte conversions are a lossless pair.
pub proof fn lemma_log_entry_roundtrip<C: Into<Vec<u8>> + From<Vec<u8>>>(
    v: LogEntry<LogPayload<C>>,
    w: proto::LogEntry,
    d: LogEntry<LogPayload<C>>,
)
    requires
        lossless_codec::<C>(),
        entry_encoded(v, w),
        entry_decoded(w, d),
    ensures
        entry_error(w) is None,
        d == v,
{
    match v.command {
        LogPayload::Noop => {},
        LogPayload::Command(c) => {
            assert(C::from_spec(c.into_spec()) == c);
        },
    }
}

/// Encoding what was decoded gives the wire entry back, when bytes survive
/// a trip through the command type.
pub proof fn lemma_log_entry_wire_roundtrip<C: Into<Vec<u8>> + From<Vec<u8>>>(
    w: proto::LogEntry,
    d: LogEntry<LogPayload<C>>,
    w2: proto::LogEntry,
)
    requires
        lossless_bytes::<C>(),
        entry_decoded(w, d),
        entry_encoded(d, w2),
    ensures
        w2 == w,
{
    match w.payload {
        Some(proto::Payload::Noop(n)) => {
            assert(n == proto::Noop {  });
        },
        Some(proto::Payload::Command(b)) => {
            assert(C::from_spec(b).into_spec() == b);
        },
        None => {},
    }
}

/// Encoded entries always decode without error.
pub proof fn lemma_encoded_entries_decode<C: Into<Vec<u8>>>(
    es: Seq<LogEntry<LogPayload<C>>>,
    ws: Seq<proto::LogEntry>,
)
    requires
        entries_encoded(es, ws),
    ensures
        first_entry_error(ws) is None,
    decreases ws.len(),
{
    if ws.len() > 0 {
        let es2 = es.drop_last();
        let ws2 = ws.drop_last();
        assert forall|k: int| 0 <= k < es2.len() implies #[trigger] entry_encoded(es2[k], ws2[k]) by {
            assert(entry_encoded(es[k], ws[k]));
        }
        lemma_encoded_entries_decode(es2, ws2);
        assert(entry_encoded(es[es.len() - 1], ws[ws.len() - 1]));
    }
}

/// Decoding a list of encoded entries gives the list back, when the
/// command type's byte conversions are a lossless pair.
pub proof fn lemma_entries_roundtrip<C: Into<Vec<u8>> + From<Vec<u8>>>(
    es: Seq<LogEntry<LogPayload<C>>>,
    ws: Seq<proto::LogEntry>,
    ds: Seq<LogEntry<LogPayload<C>>>,
)
    requires
        lossless_codec::<C>(),
        entries_encoded(es, ws),
        entries_decoded(ws, ds),
    ensures
        first_entry_error(ws) is None,
        ds == es,
{
    lemma_encoded_entries_decode(es, ws);
    assert forall|k: int| 0 <= k < es.len() implies ds[k] == es[k] by {
        assert(entry_encoded(es[k], ws[k]));
        assert(entry_decoded(ws[k], ds[k]));
        lemma_log_entry_roundtrip(es[k], ws[k], ds[k]);
    }
    assert(ds =~= es);
}

/// An `AppendEntries` request survives a trip over the wire: a valid
/// leader id is never zero, so decoding succeeds, and every field decodes
/// to what was encoded when the command type's byte conversions are a
/// lossless pair.
pub proof fn lemma_request_append_entries_roundtrip<C: Into<Vec<u8>> + From<Vec<u8>>>(
    req: RequestAppendEntries<LogPayload<C>>,
    wire: proto::RequestAppendEntries,
    back: Seq<LogEntry<LogPayload<C>>>,
)
    requires
        req.leader_id@ != 0,
        wire.term == req.term.0,
        wire.leader_id == req.leader_id@,
        wire.prev_log_id == spec_opt_log_id_to_proto(req.prev_log_id),
        entries_encoded(req.entries@, wire.entries@),
        wire.leader_commit == req.leader_commit.0,
    ensures
        wire.leader_id != 0,
        first_entry_error(wire.entries@) is None,
        Term(wire.term) == req.term,
        spec_opt_log_id_from_proto(wire.prev_log_id) == req.prev_log_id,
        LogIndex(wire.leader_commit) == req.leader_commit,
        lossless_codec::<C>() && entries_decoded(wire.entries@, back) ==> back == req.entries@,
{
    lemma_encoded_entries_decode(req.entries@, wire.entries@);
    if lossless_codec::<C>() && entries_decoded(wire.entries@, back) {
        lemma_entries_roundtrip(req.entries@, wire.entries@, back);
    }
}

/// Decoding an encoded `AppendEntries` response gives it back, and
/// encoding a decoded one gives the wire record back.
pub proof fn lemma_append_entries_response_roundtrip(
    v: AppendEntriesResponse,
    p: proto::AppendEntriesResponse,
)
    ensures
        spec_append_entries_response_from_proto(spec_append_entries_response_to_proto(v))
            == Ok::<_, ConvertError>(v),
        spec_append_entries_response_from_proto(p) matches Ok(x)
            ==> spec_append_entries_response_to_proto(x) == p,
{
}

/// An optional log id crosses the wire field for field: the index goes to
/// the index and the term to the term, in both directions, exactly as an
/// entry's id does; absence stays absence.
pub proof fn lemma_opt_log_id_field_for_field(v: Option<LogId>, w: Option<proto::LogId>)
    ensures
        v is None ==> spec_opt_log_id_to_proto(v) is None,
        v matches Some(id) ==> spec_opt_log_id_to_proto(v) == Some(
            proto::LogId { index: id.index.0, term: id.term.0 },
        ),
        v matches Some(id) ==> spec_opt_log_id_to_proto(v) == Some(spec_log_id_to_proto(id)),
        w is None ==> spec_opt_log_id_from_proto(w) is None,
        w matches Some(x) ==> spec_opt_log_id_from_proto(w) == Some(
            LogId { index: LogIndex(x.index), term: Term(x.term) },
        ),
        w matches Some(x) ==> spec_opt_log_id_from_proto(w) == Some(spec_log_id_from_proto(x)),
{
}

/// A log id crosses the wire field for field, index to index and term to
/// term.
pub proof fn lemma_log_id_field_for_field(v: LogId, w: proto::LogId)
    ensures
        spec_log_id_to_proto(v).index == v.index.0,
        spec_log_id_to_proto(v).term == v.term.0,
        spec_log_id_from_proto(w).index.0 == w.index,
        spec_log_id_from_proto(w).term.0 == w.term,
{
}

/// A response keeps its term and the kind of its result on the wire: a
/// success is sent as a success carrying the same last appended index (or
/// none), a conflict as a conflict carrying the same hint; decoding reads
/// each kind back as the same kind, and a missing result is an error.
pub proof fn lemma_response_keeps_result_kind(v: AppendEntriesResponse, w: proto::AppendEntriesResponse)
    ensures
        spec_append_entries_response_to_proto(v).term == v.term.0,
        v.result matches AppendEntriesResult::Success { last_appended: Some(i) }
            ==> spec_append_entries_response_to_proto(v).result == Some(
            proto::AppendResult::Success(proto::AppendSuccess { last_appended: Some(i.0) }),
        ),
        v.result matches AppendEntriesResult::Success { last_appended: None }
            ==> spec_append_entries_response_to_proto(v).result == Some(
            proto::AppendResult::Success(proto::AppendSuccess { last_appended: None }),
        ),
        v.result matches AppendEntriesResult::Conflict { next_index_hint: h }
            ==> spec_append_entries_response_to_proto(v).result == Some(
            proto::AppendResult::Conflict(proto::AppendConflict { next_index_hint: h.0 }),
        ),
        w.result is None ==> spec_append_entries_response_from_proto(w) is Err,
        match w.result {
            Some(proto::AppendResult::Success(s)) => spec_append_entries_response_from_proto(w)
                == Ok::<_, ConvertError>(
                AppendEntriesResponse {
                    term: Term(w.term),
                    result: AppendEntriesResult::Success {
                        last_appended: match s.last_appended {
                            Some(i) => Some(LogIndex(i)),
                            None => None,
                        },
                    },
                },
            ),
            Some(proto::AppendResult::Conflict(c)) => spec_append_entries_response_from_proto(w)
                == Ok::<_, ConvertError>(
                AppendEntriesResponse {
                    term: Term(w.term),
                    result: AppendEntriesResult::Conflict {
                        next_index_hint: LogIndex(c.next_index_hint),
                    },
                },
            ),
            None => true,
        },
{
}

} // verus!
