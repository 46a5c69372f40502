use vstd::prelude::*;

verus! {

/// A Raft term: the logical clock that orders leaderships (§5.1).
#[derive(Debug, Clone, Copy, PartialEq, Eq, Structural, PartialOrd, Ord, Hash, Default)]
pub struct Term(pub u64);

impl Term {
    /// Wrap a raw term number.
    pub fn new(value: u64) -> (r: Term)
        ensures
            r.0 == value,
    {
        Term(value)
    }

    /// The raw term number.
    pub fn get(self) -> (r: u64)
        ensures
            r == self.0,
    {
        self.0
    }
}

} // verus!
