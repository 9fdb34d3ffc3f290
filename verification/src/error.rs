//! The ways a queue operation can fail.

use vstd::prelude::*;

verus! {

/// Failure of a queue operation.
#[derive(Debug, Clone, Copy, PartialEq, Eq, Structural)]
pub enum QueueError {
    /// No message or report has the given identifier.
    NotFound,
    /// The request itself is unusable: a malformed report identifier or a
    /// reschedule time out of range. Nothing was changed.
    BadInput,
    /// The store failed to read or write; the operation may be retried.
    StorageTransient,
    /// A stored record could not be decoded; it is skipped.
    CorruptRecord,
}

} // verus!
