//! The error surface of the library.

use vstd::prelude::*;

verus! {

/// Why an operation failed.
///
/// Every fallible operation of this crate reports one of these kinds; no
/// operation panics.  `IoFailure` is never produced by the library itself —
/// it exists so that callers doing the actual file reads and writes can speak
/// the same error language as the core.
#[derive(Debug, Clone, PartialEq, Eq, Structural)]
pub enum ErrorKind {
    /// A file could not be opened, read or written.
    IoFailure,
    /// File contents were present but were not valid serialized data.
    MalformedData,
    /// A completion was requested for an out-of-range 1-based position.
    /// `valid_up_to` is the length of the list (positions `1..=valid_up_to`
    /// are acceptable) and `given` is the offending value.
    InvalidPosition { valid_up_to: usize, given: usize },
    /// An activation named a list absent from the index.
    UnknownList,
    /// No list could be resolved for a task operation.
    NoActiveList,
}

} // verus!
