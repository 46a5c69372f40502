use vstd::prelude::*;

use crate::types::index::LogIndex;
use crate::types::term::Term;

verus! {

/// The `(index, term)` pair that identifies a log entry (§5.3).
#[derive(Debug, Clone, Copy, PartialEq, Eq, Structural, Hash)]
pub struct LogId {
    pub index: LogIndex,
    pub term: Term,
}

impl LogId {
    pub fn new(index: LogIndex, term: Term) -> (r: LogId)
        ensures
            r.index == index,
            r.term == term,
    {
        LogId { index, term }
    }
}

} // verus!
