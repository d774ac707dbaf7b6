//! The closed set of failures the ranking engine reports.

use vstd::prelude::*;

verus! {

/// Everything a ledger operation can fail with.
///
/// Validation failures are detected before any mutation is attempted;
/// `StorageFailure` is reserved for a storage collaborator and is never
/// produced by the in-memory engine itself, only passed along by callers
/// that wrap it around real I/O.
#[derive(Debug, Clone, Copy, PartialEq, Eq, Structural)]
pub enum DemonlistError {
    /// A requirement outside `[0, 100]` was requested.
    InvalidRequirement,
    /// A position outside the currently valid range was requested;
    /// `maximal` is the largest value that would have been accepted.
    InvalidPosition { maximal: i16 },
    /// No demon with this id is on the ranked list.
    DemonNotFound { demon_id: i32 },
    /// The storage collaborator failed; always propagated, never swallowed.
    StorageFailure,
}

} // verus!
