use vstd::prelude::*;

verus! {

/// Position of an entry in the replicated log.
///
/// Indices are 1-based per Raft convention. Index zero is a
/// pre-log sentinel meaning "before any entry" — it is never the index
/// of a real entry. The first appended entry is always at index 1.
#[derive(Debug, Clone, Copy, PartialEq, Eq, Structural, PartialOrd, Ord, Hash, Default)]
pub struct LogIndex(pub u64);

impl LogIndex {
    /// Construct a `LogIndex` from a raw `u64`.
    pub fn new(value: u64) -> (r: LogIndex)
        ensures
            r.0 == value,
    {
        LogIndex(value)
    }

    /// The raw `u64` underlying this index.
    pub fn get(self) -> (r: u64)
        ensures
            r == self.0,
    {
        self.0
    }

    /// The next index. Used when assigning a new entry's position.
    pub fn next(self) -> (r: LogIndex)
        requires
            self.0 < u64::MAX,
        ensures
            r.0 == self.0 + 1,
    {
        LogIndex(self.0 + 1)
    }
}

/// Highest log index known to be committed (Figure 2).
///
/// A separate type from [`LogIndex`] so that "this entry's position" and
/// "the highest committed position" cannot be confused.
#[derive(Debug, Clone, Copy, PartialEq, Eq, Structural, PartialOrd, Ord, Hash)]
pub struct CommitIndex(pub LogIndex);

impl CommitIndex {
    /// Wrap a `LogIndex` as a commit position.
    pub fn new(index: LogIndex) -> (r: CommitIndex)
        ensures
            r.0 == index,
    {
        CommitIndex(index)
    }

    /// The underlying `LogIndex`.
    pub fn get(self) -> (r: LogIndex)
        ensures
            r == self.0,
    {
        self.0
    }
}

/// Highest log index applied to the local state machine (Figure 2).
///
/// Always satisfies `last_applied <= commit_index` in a running engine.
#[derive(Debug, Clone, Copy, PartialEq, Eq, Structural, PartialOrd, Ord, Hash)]
pub struct AppliedIndex(pub LogIndex);

impl AppliedIndex {
    /// Wrap a `LogIndex` as an applied position.
    pub fn new(index: LogIndex) -> (r: AppliedIndex)
        ensures
            r.0 == index,
    {
        AppliedIndex(index)
    }

    /// The underlying `LogIndex`.
    pub fn get(self) -> (r: LogIndex)
        ensures
            r == self.0,
    {
        self.0
    }
}

} // verus!
