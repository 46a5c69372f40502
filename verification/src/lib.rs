//! A Raft protocol core: the replicated log, its index and term types,
//! cluster membership, the wire mapping for log replication records and
//! the durable-state bookkeeping a simulated node keeps.
pub mod engine;
pub mod records;
pub mod sim;
pub mod transport;
pub mod types;
