//! Delivery status shared by domains and recipients.

use vstd::prelude::*;

verus! {

/// Delivery state of one unit of work (a domain or a recipient).
///
/// `T` is the detail kept on success, `E` the detail kept on failure.
#[derive(Debug, Clone, PartialEq, Eq)]
pub enum Status<T, E> {
    Scheduled,
    Completed(T),
    TemporaryFailure(E),
    PermanentFailure(E),
}

impl<T, E> Status<T, E> {
    /// Still needs scheduler attention: `Scheduled` or `TemporaryFailure`.
    pub open spec fn pending(self) -> bool {
        self is Scheduled || self is TemporaryFailure
    }

    /// Reached an end state: `Completed` or `PermanentFailure`.
    pub open spec fn done(self) -> bool {
        self is Completed || self is PermanentFailure
    }

    /// Whether the status is `Scheduled` or `TemporaryFailure`.
    pub fn is_pending(&self) -> (r: bool)
        ensures
            r == self.pending(),
    {
        match self {
            Status::Scheduled => true,
            Status::TemporaryFailure(_) => true,
            _ => false,
        }
    }

    /// Whether the status is `Completed` or `PermanentFailure`.
    pub fn is_done(&self) -> (r: bool)
        ensures
            r == self.done(),
    {
        match self {
            Status::Completed(_) => true,
            Status::PermanentFailure(_) => true,
            _ => false,
        }
    }
}

impl<T, E> Status<T, E> {
    /// The status may be followed by `next`: a scheduled unit may come to
    /// any status; a temporary failure may be retried into any status but
    /// is never merely scheduled again; a completed unit and a permanent
    /// failure stay what they are.
    pub open spec fn may_become(self, next: Status<T, E>) -> bool {
        match self {
            Status::Scheduled => true,
            Status::TemporaryFailure(_) => !(next is Scheduled),
            Status::Completed(_) => next is Completed,
            Status::PermanentFailure(_) => next is PermanentFailure,
        }
    }

    /// Whether the status may be followed by `next`.
    pub fn can_become(&self, next: &Status<T, E>) -> (r: bool)
        ensures
            r == self.may_become(*next),
    {
        match self {
            Status::Scheduled => true,
            Status::TemporaryFailure(_) => match next {
                Status::Scheduled => false,
                _ => true,
            },
            Status::Completed(_) => match next {
                Status::Completed(_) => true,
                _ => false,
            },
            Status::PermanentFailure(_) => match next {
                Status::PermanentFailure(_) => true,
                _ => false,
            },
        }
    }
}

/// Every status may stay as it is, and what may follow what may follow a
/// status may follow it, unless that would schedule a failure again.
pub proof fn lemma_may_become<T, E>(a: Status<T, E>, b: Status<T, E>, c: Status<T, E>)
    ensures
        a.may_become(a),
        a.may_become(b) && b.may_become(c) && !(c is Scheduled) ==> a.may_become(c),
        a.done() && a.may_become(b) ==> b.done(),
{
}

} // verus!
