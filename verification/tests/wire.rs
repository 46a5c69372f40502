use jotun::records::append_entries::{AppendEntriesResponse, AppendEntriesResult, RequestAppendEntries};
use jotun::records::log_entry::{LogEntry, LogPayload};
use jotun::transport::mapping::append_entries::{
    append_entries_response_from_proto, append_entries_response_to_proto, log_entry_from_proto,
    log_entry_to_proto, request_append_entries_from_proto, request_append_entries_to_proto,
};
use jotun::transport::mapping::ConvertError;
use jotun::transport::protobuf as proto;
use jotun::types::index::LogIndex;
use jotun::types::log_id::LogId;
use jotun::types::node::NodeId;
use jotun::types::term::Term;

fn entry(index: u64, term: u64, payload: LogPayload<Vec<u8>>) -> LogEntry<LogPayload<Vec<u8>>> {
    LogEntry { id: LogId::new(LogIndex::new(index), Term::new(term)), command: payload }
}

fn request() -> RequestAppendEntries<LogPayload<Vec<u8>>> {
    RequestAppendEntries {
        term: Term::new(4),
        leader_id: NodeId::new(2).unwrap(),
        prev_log_id: Some(LogId::new(LogIndex::new(6), Term::new(3))),
        entries: vec![entry(7, 4, LogPayload::Noop), entry(8, 4, LogPayload::Command(vec![1, 2, 3]))],
        leader_commit: LogIndex::new(6),
    }
}

#[test]
fn log_entry_roundtrip() {
    let e = entry(3, 2, LogPayload::Command(vec![9, 8]));
    let wire = log_entry_to_proto(e.clone());
    assert_eq!(wire.id, Some(proto::LogId { index: 3, term: 2 }));
    assert_eq!(wire.payload, Some(proto::Payload::Command(vec![9, 8])));
    assert_eq!(log_entry_from_proto(wire), Ok(e));
}

#[test]
fn log_entry_missing_payload_is_rejected_before_id() {
    let wire = proto::LogEntry { id: None, payload: None };
    assert_eq!(log_entry_from_proto::<Vec<u8>>(wire), Err(ConvertError::MissingField("LogEntry.payload")));
}

#[test]
fn log_entry_missing_id_is_rejected() {
    let wire = proto::LogEntry { id: None, payload: Some(proto::Payload::Noop(proto::Noop {})) };
    assert_eq!(log_entry_from_proto::<Vec<u8>>(wire), Err(ConvertError::MissingField("LogEntry.id")));
}

#[test]
fn request_append_entries_roundtrip() {
    let r = request();
    let wire = request_append_entries_to_proto(r.clone());
    assert_eq!(wire.term, 4);
    assert_eq!(wire.leader_id, 2);
    assert_eq!(wire.leader_commit, 6);
    assert_eq!(wire.entries.len(), 2);
    assert_eq!(wire.entries[1].payload, Some(proto::Payload::Command(vec![1, 2, 3])));
    assert_eq!(request_append_entries_from_proto(wire), Ok(r));
}

#[test]
fn request_append_entries_zero_leader_rejected() {
    let mut wire = request_append_entries_to_proto(request());
    wire.leader_id = 0;
    wire.entries[0].payload = None;
    assert_eq!(request_append_entries_from_proto::<Vec<u8>>(wire), Err(ConvertError::ZeroNodeId));
}

#[test]
fn request_append_entries_first_bad_entry_decides() {
    let mut wire = request_append_entries_to_proto(request());
    wire.entries[0].id = None;
    wire.entries[1].payload = None;
    assert_eq!(
        request_append_entries_from_proto::<Vec<u8>>(wire),
        Err(ConvertError::MissingField("LogEntry.id"))
    );
}

#[test]
fn append_entries_response_roundtrip() {
    for result in [
        AppendEntriesResult::Success { last_appended: Some(LogIndex::new(8)) },
        AppendEntriesResult::Success { last_appended: None },
        AppendEntriesResult::Conflict { next_index_hint: LogIndex::new(3) },
    ] {
        let r = AppendEntriesResponse { term: Term::new(5), result };
        let wire = append_entries_response_to_proto(r);
        assert_eq!(wire.term, 5);
        assert_eq!(append_entries_response_from_proto(wire), Ok(r));
    }
}

#[test]
fn append_entries_response_missing_result_rejected() {
    let wire = proto::AppendEntriesResponse { term: 1, result: None };
    assert_eq!(
        append_entries_response_from_proto(wire),
        Err(ConvertError::MissingField("AppendEntriesResponse.result"))
    );
}

/// A command type with its own byte encoding.
#[derive(Debug, Clone, PartialEq, Eq)]
struct Counter(u32);

impl From<Vec<u8>> for Counter {
    fn from(b: Vec<u8>) -> Self {
        Counter(u32::from_le_bytes([b[0], b[1], b[2], b[3]]))
    }
}

impl From<Counter> for Vec<u8> {
    fn from(c: Counter) -> Self {
        c.0.to_le_bytes().to_vec()
    }
}

#[test]
fn log_entry_roundtrip_with_a_typed_command() {
    let e = LogEntry {
        id: LogId::new(LogIndex::new(9), Term::new(4)),
        command: LogPayload::Command(Counter(513)),
    };
    let wire = log_entry_to_proto(e.clone());
    assert_eq!(wire.payload, Some(proto::Payload::Command(vec![1, 2, 0, 0])));
    assert_eq!(log_entry_from_proto::<Counter>(wire), Ok(e));
}
