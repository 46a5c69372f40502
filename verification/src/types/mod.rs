pub mod display;
pub mod index;
pub mod log_id;
pub mod node;
pub mod node_set;
pub mod term;
