//! The queue record model: a message, its recipient domains and its
//! recipients, together with the derived "next event" queries that order
//! pending work.

use crate::status::Status;
use vstd::prelude::*;

verus! {

/// Identifier of a queued message; assigned once and never reused.
pub type QueueId = u64;

/// A point in time paired with a counter.
///
/// For `retry`, `inner` counts the delivery attempts made so far. For
/// `notify`, `inner` counts the delay notices already sent: the notice is
/// outstanding while it is zero.
#[derive(Debug, Clone, PartialEq, Eq)]
pub struct Schedule<T> {
    pub due: u64,
    pub inner: T,
}

/// Reply of a remote host: status code, enhanced status code and text.
#[derive(Debug, Clone, PartialEq, Eq)]
pub struct Response {
    pub code: u16,
    pub esc: [u8; 3],
    pub message: String,
}

/// What failed and how.
#[derive(Debug, Clone, PartialEq, Eq)]
pub struct ErrorDetails {
    pub entity: String,
    pub details: String,
}

/// A response together with the host that gave it.
#[derive(Debug, Clone, PartialEq, Eq)]
pub struct HostResponse<T> {
    pub hostname: T,
    pub response: Response,
}

/// Why delivery to a whole domain failed.
#[derive(Debug, Clone, PartialEq, Eq)]
pub enum DeliveryError {
    DnsError(String),
    UnexpectedResponse(HostResponse<ErrorDetails>),
    ConnectionError(ErrorDetails),
    TlsError(ErrorDetails),
    DaneError(ErrorDetails),
    MtaStsError(String),
    RateLimited,
    ConcurrencyLimited,
    Io(String),
}

/// Status of a recipient domain.
pub type DomainStatus = Status<(), DeliveryError>;

/// Status of a single recipient.
pub type RecipientStatus = Status<HostResponse<String>, HostResponse<ErrorDetails>>;

/// Delivery unit for one recipient domain of a message.
#[derive(Debug, Clone, PartialEq, Eq)]
pub struct Domain {
    pub domain: String,
    pub retry: Schedule<u32>,
    pub notify: Schedule<u32>,
    pub expires: u64,
    pub status: DomainStatus,
}

/// One envelope recipient. `domain_idx` names its domain by position in
/// the message's `domains`.
#[derive(Debug, Clone, PartialEq, Eq)]
pub struct Recipient {
    pub domain_idx: usize,
    pub address: String,
    pub status: RecipientStatus,
    pub orcpt: Option<String>,
}

/// One accepted mail transaction.
#[derive(Debug, Clone, PartialEq, Eq)]
pub struct Message {
    pub id: QueueId,
    pub created: u64,
    pub return_path: String,
    pub recipients: Vec<Recipient>,
    pub domains: Vec<Domain>,
    pub size: usize,
    pub priority: i16,
    pub env_id: Option<String>,
}

/// The smaller of two timestamps.
pub open spec fn earlier(a: u64, b: u64) -> u64 {
    if b < a {
        b
    } else {
        a
    }
}

/// The earliest of the domains' events; `None` when no domain has one.
pub open spec fn earliest_event(domains: Seq<Domain>) -> Option<u64>
    decreases domains.len(),
{
    if domains.len() == 0 {
        None
    } else {
        let before = earliest_event(domains.drop_last());
        match (before, domains.last().event()) {
            (None, e) => e,
            (Some(a), None) => Some(a),
            (Some(a), Some(b)) => Some(earlier(a, b)),
        }
    }
}

/// The earliest retry time among the pending domains of `domains`, or
/// `fallback` when none is pending.
pub open spec fn earliest_retry(domains: Seq<Domain>, fallback: u64) -> u64
    decreases domains.len(),
{
    if domains.len() == 0 {
        fallback
    } else {
        let d = domains.last();
        let rest = domains.drop_last();
        if !d.status.pending() {
            earliest_retry(rest, fallback)
        } else if any_pending(rest) {
            earlier(earliest_retry(rest, fallback), d.retry.due)
        } else {
            d.retry.due
        }
    }
}

/// Some domain is `Scheduled` or in `TemporaryFailure`.
pub open spec fn any_pending(domains: Seq<Domain>) -> bool {
    exists|i: int| 0 <= i < domains.len() && (#[trigger] domains[i]).status.pending()
}

impl Domain {
    /// The retry time, never later than the deadline.
    pub open spec fn capped_retry(self) -> u64 {
        earlier(self.retry.due, self.expires)
    }

    /// A delay notice is still outstanding and falls before the deadline.
    pub open spec fn notice_outstanding(self) -> bool {
        self.notify.inner == 0 && self.notify.due < self.expires
    }

    /// When this domain next needs the scheduler: for a pending domain the
    /// capped retry time, or the notice time where an outstanding notice
    /// comes first; nothing for a domain in an end state.
    pub open spec fn event(self) -> Option<u64> {
        if !self.status.pending() {
            None
        } else if self.notice_outstanding() {
            Some(earlier(self.capped_retry(), self.notify.due))
        } else {
            Some(self.capped_retry())
        }
    }

    /// When this domain next needs the scheduler, if ever.
    pub fn next_event(&self) -> (r: Option<u64>)
        ensures
            r == self.event(),
    {
        if !self.status.is_pending() {
            return None;
        }
        let mut at: u64 = self.retry.due;
        if self.expires < at {
            at = self.expires;
        }
        if self.notify.inner == 0 && self.notify.due < self.expires && self.notify.due < at {
            at = self.notify.due;
        }
        Some(at)
    }
}

impl Message {
    /// Every recipient names a domain of this message.
    pub open spec fn wf(self) -> bool {
        forall|j: int|
            0 <= j < self.recipients@.len() ==> (#[trigger] self.recipients@[j]).domain_idx
                < self.domains@.len()
    }

    /// The earliest event over all domains.
    pub open spec fn event(self) -> Option<u64> {
        earliest_event(self.domains@)
    }

    /// At least one domain is still pending.
    pub open spec fn pending(self) -> bool {
        any_pending(self.domains@)
    }

    /// Whether every recipient names a domain of this message.
    pub fn is_wf(&self) -> (r: bool)
        ensures
            r == self.wf(),
    {
        let n = self.recipients.len();
        let limit = self.domains.len();
        let mut j: usize = 0;
        while j < n
            invariant
                j <= n,
                n == self.recipients@.len(),
                limit == self.domains@.len(),
                forall|k: int| 0 <= k < j ==> (#[trigger] self.recipients@[k]).domain_idx < limit,
            decreases n - j,
        {
            if self.recipients[j].domain_idx >= limit {
                return false;
            }
            j += 1;
        }
        true
    }

    /// The earliest time at which any domain needs the scheduler, or
    /// `None` when every domain is in an end state.
    pub fn next_event(&self) -> (r: Option<u64>)
        ensures
            r == self.event(),
    {
        let n = self.domains.len();
        let mut best: Option<u64> = None;
        let mut i: usize = 0;
        while i < n
            invariant
                i <= n,
                n == self.domains@.len(),
                best == earliest_event(self.domains@.take(i as int)),
            decreases n - i,
        {
            proof {
                assert(self.domains@.take(i + 1).drop_last() == self.domains@.take(i as int));
            }
            match self.domains[i].next_event() {
                Some(t) => {
                    best = match best {
                        Some(b) => Some(if t < b { t } else { b }),
                        None => Some(t),
                    };
                },
                None => {},
            }
            i += 1;
        }
        proof {
            assert(self.domains@.take(n as int) == self.domains@);
        }
        best
    }

    /// The earliest retry time among the pending domains, or `now` when
    /// no domain is pending.
    pub fn next_delivery_event(&self, now: u64) -> (r: u64)
        ensures
            r == earliest_retry(self.domains@, now),
    {
        let n = self.domains.len();
        let mut best: u64 = now;
        let mut seen = false;
        let mut i: usize = 0;
        while i < n
            invariant
                i <= n,
                n == self.domains@.len(),
                best == earliest_retry(self.domains@.take(i as int), now),
                seen == any_pending(self.domains@.take(i as int)),
            decreases n - i,
        {
            let ghost head = self.domains@.take(i as int);
            let ghost next = self.domains@.take(i + 1);
            proof {
                assert(next.drop_last() == head);
                assert(next.last() == self.domains@[i as int]);
                if any_pending(head) {
                    let k = choose|k: int| 0 <= k < head.len() && (#[trigger] head[k]).status.pending();
                    assert(next[k].status.pending());
                }
                if any_pending(next) && !self.domains@[i as int].status.pending() {
                    let k = choose|k: int| 0 <= k < next.len() && (#[trigger] next[k]).status.pending();
                    assert(head[k].status.pending());
                }
                if self.domains@[i as int].status.pending() {
                    assert(next[i as int].status.pending());
                }
            }
            if self.domains[i].status.is_pending() {
                let due = self.domains[i].retry.due;
                if !seen || due < best {
                    best = due;
                }
                seen = true;
            }
            i += 1;
        }
        proof {
            assert(self.domains@.take(n as int) == self.domains@);
        }
        best
    }

    /// Whether some domain is still `Scheduled` or in `TemporaryFailure`.
    pub fn has_pending(&self) -> (r: bool)
        ensures
            r == self.pending(),
    {
        let n = self.domains.len();
        let mut i: usize = 0;
        while i < n
            invariant
                i <= n,
                n == self.domains@.len(),
                forall|k: int| 0 <= k < i ==> !(#[trigger] self.domains@[k]).status.pending(),
            decreases n - i,
        {
            if self.domains[i].status.is_pending() {
                return true;
            }
            i += 1;
        }
        false
    }
}

/// The message's event is the minimum of its domains' events: it is
/// absent exactly when no domain is pending, and otherwise it is the event
/// of some domain and no domain has an earlier one.
pub proof fn lemma_earliest_event_is_minimum(domains: Seq<Domain>)
    ensures
        earliest_event(domains) is None <==> !any_pending(domains),
        earliest_event(domains) matches Some(t) ==> {
            &&& exists|i: int| 0 <= i < domains.len() && (#[trigger] domains[i]).event() == Some(t)
            &&& forall|j: int|
                0 <= j < domains.len() ==> ((#[trigger] domains[j]).event() matches Some(u) ==> t
                    <= u)
        },
    decreases domains.len(),
{
    if domains.len() > 0 {
        let rest = domains.drop_last();
        let d = domains.last();
        lemma_earliest_event_is_minimum(rest);
        assert(forall|j: int| 0 <= j < rest.len() ==> rest[j] == domains[j]);
        if any_pending(rest) {
            let k = choose|k: int| 0 <= k < rest.len() && (#[trigger] rest[k]).status.pending();
            assert(domains[k].status.pending());
        }
        if d.status.pending() {
            assert(domains[domains.len() - 1].status.pending());
        }
        if any_pending(domains) {
            let k = choose|k: int| 0 <= k < domains.len() && (#[trigger] domains[k]).status.pending();
            if k < rest.len() {
                assert(rest[k].status.pending());
            }
        }
        match earliest_event(domains) {
            Some(t) => {
                match earliest_event(rest) {
                    Some(a) => {
                        let i = choose|i: int| 0 <= i < rest.len() && (#[trigger] rest[i]).event() == Some(a);
                        assert(domains[i].event() == Some(a));
                        if d.event() == Some(t) {
                            assert(domains[domains.len() - 1].event() == Some(t));
                        }
                    },
                    None => {
                        assert(domains[domains.len() - 1].event() == Some(t));
                    },
                }
                assert forall|j: int| 0 <= j < domains.len() implies ((#[trigger] domains[j]).event() matches Some(u) ==> t <= u) by {
                    if j < rest.len() {
                        assert(rest[j] == domains[j]);
                    }
                }
            },
            None => {},
        }
    }
}

} // verus!
