//! The failure taxonomy of the search.

use vstd::prelude::*;

verus! {

/// Everything that can stop a search, or a run of the surrounding program,
/// before the requested number of matches is reported.
#[derive(Clone, Copy, Debug, PartialEq, Eq, Structural)]
pub enum ErrorKind {
    /// The search was asked to run on zero worker threads.
    InvalidThreadCount,
    /// The requested count of trailing zero characters exceeds the digest length.
    InvalidZeroCount,
    /// The candidate space was used up before the requested number of matches
    /// was found.
    SearchSpaceExhausted,
    /// An argument of the surrounding program was absent or unreadable.
    ArgumentMissingOrMalformed,
}

impl ErrorKind {
    /// A short description, for reporting outside the library.
    pub fn describe(&self) -> (r: &'static str)
        ensures
            r@.len() > 0,
    {
        proof {
            reveal_strlit("thread count must be at least 1");
            reveal_strlit("zero count exceeds the digest length");
            reveal_strlit("search space exhausted before the target was reached");
            reveal_strlit("argument missing or malformed");
        }
        match self {
            ErrorKind::InvalidThreadCount => "thread count must be at least 1",
            ErrorKind::InvalidZeroCount => "zero count exceeds the digest length",
            ErrorKind::SearchSpaceExhausted => "search space exhausted before the target was reached",
            ErrorKind::ArgumentMissingOrMalformed => "argument missing or malformed",
        }
    }
}

} // verus!
