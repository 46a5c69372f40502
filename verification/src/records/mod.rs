pub mod append_entries;
pub mod log_entry;
pub mod membership;
pub mod message;
pub mod vote;
