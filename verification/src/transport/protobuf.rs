//! The wire records of log replication, field for field as the protocol
//! buffers schema lays them out. Optional sub-messages are `Option`s, as
//! the schema lets a sender omit them.
use vstd::prelude::*;

verus! {

/// `(index, term)` of a log entry on the wire.
#[derive(Debug, Clone, Copy, PartialEq, Eq)]
pub struct LogId {
    pub index: u64,
    pub term: u64,
}

/// The empty payload of a leader's no-op entry.
#[derive(Debug, Clone, Copy, PartialEq, Eq)]
pub struct Noop {}

/// The payload of a log entry on the wire.
#[derive(Debug, Clone, PartialEq, Eq)]
pub enum Payload {
    Noop(Noop),
    Command(Vec<u8>),
}

/// A log entry on the wire.
#[derive(Debug, Clone, PartialEq, Eq)]
pub struct LogEntry {
    pub id: Option<LogId>,
    pub payload: Option<Payload>,
}

/// An `AppendEntries` request on the wire.
#[derive(Debug, Clone, PartialEq, Eq)]
pub struct RequestAppendEntries {
    pub term: u64,
    pub leader_id: u64,
    pub prev_log_id: Option<LogId>,
    pub entries: Vec<LogEntry>,
    pub leader_commit: u64,
}

/// The success branch of an `AppendEntries` response on the wire.
#[derive(Debug, Clone, Copy, PartialEq, Eq)]
pub struct AppendSuccess {
    pub last_appended: Option<u64>,
}

/// The conflict branch of an `AppendEntries` response on the wire.
#[derive(Debug, Clone, Copy, PartialEq, Eq)]
pub struct AppendConflict {
    pub next_index_hint: u64,
}

/// The result carried by an `AppendEntries` response on the wire.
#[derive(Debug, Clone, Copy, PartialEq, Eq)]
pub enum AppendResult {
    Success(AppendSuccess),
    Conflict(AppendConflict),
}

/// An `AppendEntries` response on the wire.
#[derive(Debug, Clone, Copy, PartialEq, Eq)]
pub struct AppendEntriesResponse {
    pub term: u64,
    pub result: Option<AppendResult>,
}

} // verus!
