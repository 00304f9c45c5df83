//! What the engine's operations can fail with.
use vstd::prelude::*;

verus! {

/// Failure of an operation on the history.
#[derive(Debug, PartialEq, Eq)]
pub enum Error {
    /// A failure described by a message.
    Custom(String),
    /// The line holds nothing before its tab, so no id can be read.
    MissingId,
    /// The text before the tab is not an unsigned 64-bit number.
    BadId,
    /// A deletion by query was asked for with an empty query.
    EmptyQuery,
    /// No entry has this id.
    NotFound(u64),
    /// The id counter has reached its largest value.
    SequenceExhausted,
}

impl Error {
    /// An error that carries `val` as its message.
    pub fn custom(val: &str) -> (r: Error)
        ensures
            r == Error::Custom(r->Custom_0) && r->Custom_0@ == val@,
    {
        Error::Custom(String::from_str(val))
    }
}

} // verus!
