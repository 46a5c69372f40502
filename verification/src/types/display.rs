//! Human-readable renderings of the index types: a label, a colon and
//! the value in decimal, e.g. `log_index:42`.
use vstd::prelude::*;

use crate::types::index::{AppliedIndex, CommitIndex, LogIndex};

verus! {

/// The character of a decimal digit.
pub open spec fn digit_char(d: int) -> char {
    (48 + d) as char
}

/// The decimal digits of `n`, most significant first, without leading
/// zeros (`0` is the single digit `0`).
pub open spec fn decimal(n: nat) -> Seq<char>
    decreases n,
{
    if n < 10 {
        seq![digit_char(n as int)]
    } else {
        decimal(n / 10).push(digit_char((n % 10) as int))
    }
}

/// `label` followed by `value` in decimal.
///
/// Calls std's `format!` with `"{}{}"`; the contract states what the
/// documentation of `Display` for `&str` and for `u64` gives: the string
/// itself, then the decimal digits of the number.
#[verifier::external_body]
fn labelled_decimal(label: &str, value: u64) -> (r: String)
    ensures
        r@ == label@ + decimal(value as nat),
{
    format!("{}{}", label, value)
}

/// How a log index reads: `log_index:` and the index in decimal.
pub open spec fn log_index_text(index: LogIndex) -> Seq<char> {
    "log_index:"@ + decimal(index.0 as nat)
}

impl LogIndex {
    /// `log_index:` and the index in decimal.
    pub fn to_display_string(&self) -> (r: String)
        ensures
            r@ == log_index_text(*self),
    {
        labelled_decimal("log_index:", self.0)
    }
}

impl CommitIndex {
    /// `commit_index:` followed by the underlying log index as it reads,
    /// e.g. `commit_index:log_index:5`.
    pub fn to_display_string(&self) -> (r: String)
        ensures
            r@ == "commit_index:"@ + log_index_text(self.0),
    {
        let r = labelled_decimal("commit_index:log_index:", self.0.0);
        proof {
            reveal_strlit("commit_index:log_index:");
            reveal_strlit("commit_index:");
            reveal_strlit("log_index:");
            assert("commit_index:log_index:"@ =~= "commit_index:"@ + "log_index:"@);
            assert(r@ =~= "commit_index:"@ + log_index_text(self.0));
        }
        r
    }
}

impl AppliedIndex {
    /// `applied_index:` followed by the underlying log index as it reads,
    /// e.g. `applied_index:log_index:5`.
    pub fn to_display_string(&self) -> (r: String)
        ensures
            r@ == "applied_index:"@ + log_index_text(self.0),
    {
        let r = labelled_decimal("applied_index:log_index:", self.0.0);
        proof {
            reveal_strlit("applied_index:log_index:");
            reveal_strlit("applied_index:");
            reveal_strlit("log_index:");
            assert("applied_index:log_index:"@ =~= "applied_index:"@ + "log_index:"@);
            assert(r@ =~= "applied_index:"@ + log_index_text(self.0));
        }
        r
    }
}

} // verus!
