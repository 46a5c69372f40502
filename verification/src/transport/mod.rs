pub mod mapping;
pub mod protobuf;
