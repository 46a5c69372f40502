pub mod action;
pub mod event;
pub mod log;
pub mod log_laws;
pub mod peer_progress;
pub mod role_state;
pub mod snapshot;
