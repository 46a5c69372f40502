use vstd::prelude::*;

pub mod append_entries;

verus! {

/// Why a wire record could not be turned into an engine record.
#[derive(Debug, Clone, Copy, PartialEq, Eq)]
pub enum ConvertError {
    /// A field that the record needs was absent on the wire.
    MissingField(&'static str),
    /// A node id field held zero, which names no node.
    ZeroNodeId,
}

} // verus!
