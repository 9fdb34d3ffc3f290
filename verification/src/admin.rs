//! The two administrative edits of a queued message, rescheduling and
//! cancellation, and the status aggregation that keeps a domain's status
//! in step with its recipients.

use crate::error::QueueError;
use crate::queue::{Domain, ErrorDetails, HostResponse, Message, Recipient, RecipientStatus, Response, Schedule};
use crate::status::Status;
use crate::text::{admits, contains, occurs_in, opt_text, passes};
use vstd::prelude::*;
use vstd::string::StringExecFns;

verus! {

/// Width of the window kept between a retry time and the deadline when
/// the retry time is moved past the deadline.
pub const EXPIRY_WINDOW: u64 = 10;

/// What the store has to do after an edit.
#[derive(Debug, Clone, Copy, PartialEq, Eq, Structural)]
pub enum Change {
    /// The record is as it was and stays where it is.
    Unchanged,
    /// Drop the record from its position at `prev_event` and write it at
    /// `next_event`.
    Save { prev_event: u64, next_event: u64 },
    /// Delete the record, which sits at `prev_event`.
    Remove { prev_event: u64 },
}

/// What a cancellation came to.
#[derive(Debug, Clone, Copy, PartialEq, Eq, Structural)]
pub struct Canceled {
    /// Whether anything was found to cancel: always without a filter,
    /// else whether some recipient's address contains the filter.
    pub matched: bool,
    /// What the store has to do. A record may have to be rewritten or
    /// deleted though nothing was found, where the aggregation completed
    /// a domain or left none pending.
    pub change: Change,
}

impl Change {
    /// The store has something to do.
    pub open spec fn changed(self) -> bool {
        !(self is Unchanged)
    }

    /// Whether the store has something to do.
    pub fn is_changed(&self) -> (r: bool)
        ensures
            r == self.changed(),
    {
        match self {
            Change::Unchanged => false,
            _ => true,
        }
    }
}

/// The event time used as a storage position; zero when there is none.
pub open spec fn position(event: Option<u64>) -> u64 {
    match event {
        Some(t) => t,
        None => 0,
    }
}

impl Domain {
    /// Rescheduling applies to pending domains whose name passes the
    /// filter.
    pub open spec fn reschedulable(self, filter: Option<Seq<char>>) -> bool {
        self.status.pending() && admits(filter, self.domain@)
    }

    /// The domain after rescheduling to `at`: a matching domain gets the
    /// new retry time, and a deadline that the retry time has passed is
    /// moved to `at + EXPIRY_WINDOW`; any other domain is left alone.
    pub open spec fn rescheduled(self, at: u64, filter: Option<Seq<char>>) -> Domain {
        if self.reschedulable(filter) {
            Domain {
                retry: Schedule { due: at, inner: self.retry.inner },
                expires: if self.expires < at {
                    (at + EXPIRY_WINDOW) as u64
                } else {
                    self.expires
                },
                ..self
            }
        } else {
            self
        }
    }

    /// The domain after aggregation over `recipients`, where it stands at
    /// position `idx`: a pending domain all of whose recipients are done
    /// becomes `Completed`.
    pub open spec fn aggregated(self, recipients: Seq<Recipient>, idx: int) -> Domain {
        if self.status.pending() && all_done(recipients, idx) {
            Domain { status: Status::Completed(()), ..self }
        } else {
            self
        }
    }
}

/// Some domain of `domains` would be rescheduled under `filter`.
pub open spec fn any_reschedulable(domains: Seq<Domain>, filter: Option<Seq<char>>) -> bool {
    exists|i: int| 0 <= i < domains.len() && (#[trigger] domains[i]).reschedulable(filter)
}

/// Every domain after rescheduling.
pub open spec fn rescheduled_all(domains: Seq<Domain>, at: u64, filter: Option<Seq<char>>) -> Seq<
    Domain,
> {
    Seq::new(domains.len(), |i: int| domains[i].rescheduled(at, filter))
}

/// Every recipient of the domain at `idx` is `Completed` or in
/// `PermanentFailure`.
pub open spec fn all_done(recipients: Seq<Recipient>, idx: int) -> bool {
    forall|j: int|
        0 <= j < recipients.len() && (#[trigger] recipients[j]).domain_idx == idx
            ==> recipients[j].status.done()
}

/// Aggregation over `recipients` completes some domain: one that is
/// pending though all of its recipients are done.
pub open spec fn any_completable(domains: Seq<Domain>, recipients: Seq<Recipient>) -> bool {
    exists|i: int|
        0 <= i < domains.len() && (#[trigger] domains[i]).status.pending() && all_done(recipients, i)
}

/// Every domain after aggregation over `recipients`.
pub open spec fn aggregated_all(domains: Seq<Domain>, recipients: Seq<Recipient>) -> Seq<Domain> {
    Seq::new(domains.len(), |i: int| domains[i].aggregated(recipients, i))
}

/// The status that cancellation gives a recipient: a permanent failure
/// with no host, code zero and the text "Delivery canceled".
pub open spec fn is_cancel_notice(status: RecipientStatus) -> bool {
    &&& status matches Status::PermanentFailure(h)
    &&& h.hostname.entity@ == Seq::<char>::empty()
    &&& h.hostname.details@ == Seq::<char>::empty()
    &&& h.response.code == 0
    &&& h.response.esc@ == seq![0u8, 0u8, 0u8]
    &&& h.response.message@ == "Delivery canceled"@
}

/// `after` is `before` with delivery canceled under `filter`: a recipient
/// whose address contains the filter carries the cancel notice and keeps
/// everything else; any other recipient is untouched.
pub open spec fn canceled(before: Recipient, after: Recipient, filter: Seq<char>) -> bool {
    if occurs_in(before.address@, filter) {
        &&& after.domain_idx == before.domain_idx
        &&& after.address == before.address
        &&& after.orcpt == before.orcpt
        &&& is_cancel_notice(after.status)
    } else {
        after == before
    }
}

/// Some recipient's address contains `filter`.
pub open spec fn any_addressed(recipients: Seq<Recipient>, filter: Seq<char>) -> bool {
    exists|j: int| 0 <= j < recipients.len() && occurs_in((#[trigger] recipients[j]).address@, filter)
}

/// The status written on a canceled recipient.
pub fn cancel_notice() -> (status: RecipientStatus)
    ensures
        is_cancel_notice(status),
{
    Status::PermanentFailure(
        HostResponse {
            hostname: ErrorDetails { entity: String::new(), details: String::new() },
            response: Response {
                code: 0,
                esc: [0u8, 0u8, 0u8],
                message: String::from_str("Delivery canceled"),
            },
        },
    )
}

impl Message {
    /// Everything but the domains and the recipients is the same in both.
    pub open spec fn same_envelope(self, after: Message) -> bool {
        &&& after.id == self.id
        &&& after.created == self.created
        &&& after.return_path == self.return_path
        &&& after.size == self.size
        &&& after.priority == self.priority
        &&& after.env_id == self.env_id
    }

    /// `after` and `out` are the outcome of canceling delivery of `self`
    /// under `filter`.
    ///
    /// Without a filter the message is untouched and is to be removed.
    /// With one, every recipient is canceled as `canceled` says, and then
    /// the domains are aggregated over the recipients as they then stand,
    /// whether or not an address matched. The record is removed once no
    /// domain is pending; it is saved where a recipient matched or the
    /// aggregation completed a domain; else nothing is to be done.
    pub open spec fn canceled_to(self, after: Message, filter: Option<Seq<char>>, out: Canceled) -> bool {
        &&& self.same_envelope(after)
        &&& after.recipients@.len() == self.recipients@.len()
        &&& match filter {
            None => {
                &&& after.recipients == self.recipients
                &&& after.domains == self.domains
                &&& out.matched
                &&& out.change == Change::Remove { prev_event: position(self.event()) }
            },
            Some(f) => {
                &&& forall|j: int|
                    0 <= j < self.recipients@.len() ==> canceled(
                        self.recipients@[j],
                        #[trigger] after.recipients@[j],
                        f,
                    )
                &&& after.domains@ == aggregated_all(self.domains@, after.recipients@)
                &&& out.matched == any_addressed(self.recipients@, f)
                &&& out.change == if !after.pending() {
                    Change::Remove { prev_event: position(self.event()) }
                } else if out.matched || any_completable(self.domains@, after.recipients@) {
                    Change::Save {
                        prev_event: position(self.event()),
                        next_event: position(after.event()),
                    }
                } else {
                    Change::Unchanged
                }
            },
        }
    }
}

impl Message {
    /// Moves the retry time of every pending domain whose name passes
    /// `filter` to `at`, and reports whether any domain matched.
    pub fn reschedule(&mut self, at: u64, filter: Option<&str>) -> (change: Change)
        requires
            at + EXPIRY_WINDOW <= u64::MAX,
        ensures
            final(self).domains@ == rescheduled_all(old(self).domains@, at, opt_text(filter)),
            final(self).recipients == old(self).recipients,
            old(self).same_envelope(*final(self)),
            old(self).wf() ==> final(self).wf(),
            change == if any_reschedulable(old(self).domains@, opt_text(filter)) {
                Change::Save {
                    prev_event: position(old(self).event()),
                    next_event: position(final(self).event()),
                }
            } else {
                Change::Unchanged
            },
    {
        let prev_event = unwrap_event(self.next_event());
        let n = self.domains.len();
        let mut found = false;
        let mut i: usize = 0;
        while i < n
            invariant
                i <= n,
                n == self.domains@.len(),
                n == old(self).domains@.len(),
                at + EXPIRY_WINDOW <= u64::MAX,
                forall|k: int|
                    0 <= k < i ==> #[trigger] self.domains@[k] == old(self).domains@[k].rescheduled(
                        at,
                        opt_text(filter),
                    ),
                forall|k: int| i <= k < n ==> #[trigger] self.domains@[k] == old(self).domains@[k],
                found == any_reschedulable(old(self).domains@.take(i as int), opt_text(filter)),
                self.recipients == old(self).recipients,
                self.id == old(self).id,
                self.created == old(self).created,
                self.return_path == old(self).return_path,
                self.size == old(self).size,
                self.priority == old(self).priority,
                self.env_id == old(self).env_id,
            decreases n - i,
        {
            let ghost head = old(self).domains@.take(i as int);
            let ghost next = old(self).domains@.take(i + 1);
            proof {
                if any_reschedulable(head, opt_text(filter)) {
                    let k = choose|k: int|
                        0 <= k < head.len() && (#[trigger] head[k]).reschedulable(opt_text(filter));
                    assert(next[k].reschedulable(opt_text(filter)));
                }
                if any_reschedulable(next, opt_text(filter)) && !old(self).domains@[i as int].reschedulable(
                    opt_text(filter),
                ) {
                    let k = choose|k: int|
                        0 <= k < next.len() && (#[trigger] next[k]).reschedulable(opt_text(filter));
                    assert(head[k].reschedulable(opt_text(filter)));
                }
                if old(self).domains@[i as int].reschedulable(opt_text(filter)) {
                    assert(next[i as int].reschedulable(opt_text(filter)));
                }
            }
            if self.domains[i].status.is_pending() && passes(filter, self.domains[i].domain.as_str()) {
                self.domains[i].retry.due = at;
                if self.domains[i].expires < at {
                    self.domains[i].expires = at + EXPIRY_WINDOW;
                }
                found = true;
            }
            i += 1;
        }
        proof {
            assert(old(self).domains@.take(n as int) == old(self).domains@);
            assert(self.domains@ =~= rescheduled_all(old(self).domains@, at, opt_text(filter)));
        }
        if found {
            let next_event = unwrap_event(self.next_event());
            Change::Save { prev_event, next_event }
        } else {
            Change::Unchanged
        }
    }

    /// Marks as `Completed` every pending domain whose recipients are all
    /// done, and reports whether there was one.
    pub fn aggregate(&mut self) -> (completed: bool)
        ensures
            final(self).domains@ == aggregated_all(old(self).domains@, old(self).recipients@),
            completed == any_completable(old(self).domains@, old(self).recipients@),
            final(self).recipients == old(self).recipients,
            old(self).same_envelope(*final(self)),
            old(self).wf() ==> final(self).wf(),
    {
        let n = self.domains.len();
        let mut completed = false;
        let mut i: usize = 0;
        while i < n
            invariant
                i <= n,
                n == self.domains@.len(),
                n == old(self).domains@.len(),
                completed == exists|k: int|
                    0 <= k < i && (#[trigger] old(self).domains@[k]).status.pending() && all_done(
                        old(self).recipients@,
                        k,
                    ),
                forall|k: int|
                    0 <= k < i ==> #[trigger] self.domains@[k] == old(self).domains@[k].aggregated(
                        old(self).recipients@,
                        k,
                    ),
                forall|k: int| i <= k < n ==> #[trigger] self.domains@[k] == old(self).domains@[k],
                self.recipients == old(self).recipients,
                self.id == old(self).id,
                self.created == old(self).created,
                self.return_path == old(self).return_path,
                self.size == old(self).size,
                self.priority == old(self).priority,
                self.env_id == old(self).env_id,
            decreases n - i,
        {
            if self.domains[i].status.is_pending() && self.recipients_done(i) {
                self.domains[i].status = Status::Completed(());
                completed = true;
            }
            proof {
                if old(self).domains@[i as int].status.pending() && all_done(
                    old(self).recipients@,
                    i as int,
                ) {
                    assert(completed);
                }
            }
            i += 1;
        }
        proof {
            assert(self.domains@ =~= aggregated_all(old(self).domains@, old(self).recipients@));
        }
        completed
    }

    /// Whether every recipient of the domain at `idx` is done.
    pub fn recipients_done(&self, idx: usize) -> (r: bool)
        ensures
            r == all_done(self.recipients@, idx as int),
    {
        let n = self.recipients.len();
        let mut j: usize = 0;
        while j < n
            invariant
                j <= n,
                n == self.recipients@.len(),
                forall|k: int|
                    0 <= k < j && (#[trigger] self.recipients@[k]).domain_idx == idx
                        ==> self.recipients@[k].status.done(),
            decreases n - j,
        {
            if self.recipients[j].domain_idx == idx && !self.recipients[j].status.is_done() {
                return false;
            }
            j += 1;
        }
        true
    }

    /// Cancels delivery. Without a filter the whole message is to be
    /// removed. With one, delivery is canceled for the recipients whose
    /// address contains it; then every pending domain is aggregated, and
    /// the message is removed once no domain is pending.
    pub fn cancel(&mut self, filter: Option<&str>) -> (out: Canceled)
        ensures
            old(self).canceled_to(*final(self), opt_text(filter), out),
            old(self).wf() ==> final(self).wf(),
    {
        let prev_event = unwrap_event(self.next_event());
        match filter {
            None => Canceled { matched: true, change: Change::Remove { prev_event } },
            Some(f) => {
                let matched = self.cancel_recipients(f);
                let completed = self.aggregate();
                let change = if !self.has_pending() || matched || completed {
                    self.change_from(prev_event)
                } else {
                    Change::Unchanged
                };
                Canceled { matched, change }
            },
        }
    }

    /// What becomes of the record, which sat at `prev_event`, as the
    /// message now stands: it is saved at its next event while a domain
    /// is pending, and removed once none is.
    pub fn change_from(&self, prev_event: u64) -> (change: Change)
        ensures
            change == if self.pending() {
                Change::Save { prev_event, next_event: position(self.event()) }
            } else {
                Change::Remove { prev_event }
            },
    {
        if self.has_pending() {
            Change::Save { prev_event, next_event: unwrap_event(self.next_event()) }
        } else {
            Change::Remove { prev_event }
        }
    }

    /// Gives the cancel notice to every recipient whose address contains
    /// `filter`, and reports whether there was one.
    pub fn cancel_recipients(&mut self, filter: &str) -> (found: bool)
        ensures
            final(self).recipients@.len() == old(self).recipients@.len(),
            forall|j: int|
                0 <= j < old(self).recipients@.len() ==> canceled(
                    old(self).recipients@[j],
                    #[trigger] final(self).recipients@[j],
                    filter@,
                ),
            found == any_addressed(old(self).recipients@, filter@),
            final(self).domains == old(self).domains,
            old(self).same_envelope(*final(self)),
            old(self).wf() ==> final(self).wf(),
    {
        let n = self.recipients.len();
        let mut found = false;
        let mut j: usize = 0;
        while j < n
            invariant
                j <= n,
                n == self.recipients@.len(),
                n == old(self).recipients@.len(),
                forall|k: int|
                    0 <= k < j ==> canceled(
                        old(self).recipients@[k],
                        #[trigger] self.recipients@[k],
                        filter@,
                    ),
                forall|k: int|
                    j <= k < n ==> #[trigger] self.recipients@[k] == old(self).recipients@[k],
                found == any_addressed(old(self).recipients@.take(j as int), filter@),
                self.domains == old(self).domains,
                self.id == old(self).id,
                self.created == old(self).created,
                self.return_path == old(self).return_path,
                self.size == old(self).size,
                self.priority == old(self).priority,
                self.env_id == old(self).env_id,
            decreases n - j,
        {
            let ghost head = old(self).recipients@.take(j as int);
            let ghost next = old(self).recipients@.take(j + 1);
            proof {
                if any_addressed(head, filter@) {
                    let k = choose|k: int|
                        0 <= k < head.len() && occurs_in((#[trigger] head[k]).address@, filter@);
                    assert(occurs_in(next[k].address@, filter@));
                }
                if any_addressed(next, filter@) && !occurs_in(
                    old(self).recipients@[j as int].address@,
                    filter@,
                ) {
                    let k = choose|k: int|
                        0 <= k < next.len() && occurs_in((#[trigger] next[k]).address@, filter@);
                    assert(occurs_in(head[k].address@, filter@));
                }
                if occurs_in(old(self).recipients@[j as int].address@, filter@) {
                    assert(occurs_in(next[j as int].address@, filter@));
                }
            }
            if contains(self.recipients[j].address.as_str(), filter) {
                self.recipients[j].status = cancel_notice();
                found = true;
            }
            j += 1;
        }
        proof {
            assert(old(self).recipients@.take(n as int) == old(self).recipients@);
        }
        found
    }
}

/// The event time as a storage position.
pub fn unwrap_event(event: Option<u64>) -> (r: u64)
    ensures
        r == position(event),
{
    match event {
        Some(t) => t,
        None => 0,
    }
}

/// A reschedule time is acceptable when it is not in the past and leaves
/// room for the deadline window.
pub open spec fn acceptable_time(at: u64, now: u64) -> bool {
    now <= at && at + EXPIRY_WINDOW <= u64::MAX
}

/// Reschedules the message that the store returned for an identifier.
///
/// A time that is not acceptable is refused before anything else; a
/// missing message is reported next; otherwise the message is handed back
/// rescheduled, with what the store has to do.
pub fn reschedule(found: Option<Message>, at: u64, now: u64, filter: Option<&str>) -> (r: Result<
    (Message, Change),
    QueueError,
>)
    ensures
        !acceptable_time(at, now) ==> r == Err::<(Message, Change), QueueError>(
            QueueError::BadInput,
        ),
        acceptable_time(at, now) && found is None ==> r == Err::<(Message, Change), QueueError>(
            QueueError::NotFound,
        ),
        acceptable_time(at, now) && found is Some ==> {
            &&& r matches Ok((after, change))
            &&& after.domains@ == rescheduled_all(found->0.domains@, at, opt_text(filter))
            &&& after.recipients == found->0.recipients
            &&& after.id == found->0.id
            &&& after.created == found->0.created
            &&& after.return_path == found->0.return_path
            &&& after.size == found->0.size
            &&& after.priority == found->0.priority
            &&& after.env_id == found->0.env_id
            &&& change == if any_reschedulable(found->0.domains@, opt_text(filter)) {
                Change::Save {
                    prev_event: position(found->0.event()),
                    next_event: position(after.event()),
                }
            } else {
                Change::Unchanged
            }
        },
{
    if at < now || at > u64::MAX - EXPIRY_WINDOW {
        return Err(QueueError::BadInput);
    }
    match found {
        None => Err(QueueError::NotFound),
        Some(message) => {
            let mut message = message;
            let change = message.reschedule(at, filter);
            Ok((message, change))
        },
    }
}

/// Cancels delivery of the message that the store returned for an
/// identifier: `NotFound` when there is none, otherwise the message as
/// `Message::cancel` leaves it, with whether anything was found and what
/// the store has to do.
pub fn cancel(found: Option<Message>, filter: Option<&str>) -> (r: Result<
    (Message, Canceled),
    QueueError,
>)
    ensures
        found is None ==> r == Err::<(Message, Canceled), QueueError>(QueueError::NotFound),
        found matches Some(before) ==> {
            &&& r matches Ok((after, out))
            &&& before.canceled_to(after, opt_text(filter), out)
        },
{
    match found {
        None => Err(QueueError::NotFound),
        Some(message) => {
            let mut message = message;
            let out = message.cancel(filter);
            Ok((message, out))
        },
    }
}

/// Rescheduling twice to the same time changes nothing the second time:
/// every domain, and so its retry time and deadline, is as the first call
/// left it, and the second call matches exactly when the first did.
pub proof fn lemma_reschedule_idempotent(domains: Seq<Domain>, at: u64, filter: Option<Seq<char>>)
    requires
        at + EXPIRY_WINDOW <= u64::MAX,
    ensures
        rescheduled_all(rescheduled_all(domains, at, filter), at, filter) == rescheduled_all(
            domains,
            at,
            filter,
        ),
        any_reschedulable(rescheduled_all(domains, at, filter), filter) == any_reschedulable(
            domains,
            filter,
        ),
{
    let once = rescheduled_all(domains, at, filter);
    let twice = rescheduled_all(once, at, filter);
    assert forall|i: int| 0 <= i < domains.len() implies #[trigger] twice[i] == once[i] by {
        lemma_reschedule_domain_idempotent(domains[i], at, filter);
    }
    assert(twice =~= once);
    if any_reschedulable(domains, filter) {
        let k = choose|k: int| 0 <= k < domains.len() && (#[trigger] domains[k]).reschedulable(filter);
        lemma_reschedule_domain_idempotent(domains[k], at, filter);
        assert(once[k].reschedulable(filter));
    }
    if any_reschedulable(once, filter) {
        let k = choose|k: int| 0 <= k < once.len() && (#[trigger] once[k]).reschedulable(filter);
        lemma_reschedule_domain_idempotent(domains[k], at, filter);
        assert(domains[k].reschedulable(filter));
    }
}

/// One domain under repeated rescheduling: the second application is the
/// identity, and a domain matches after the first exactly when it matched
/// before.
pub proof fn lemma_reschedule_domain_idempotent(d: Domain, at: u64, filter: Option<Seq<char>>)
    requires
        at + EXPIRY_WINDOW <= u64::MAX,
    ensures
        d.rescheduled(at, filter).rescheduled(at, filter) == d.rescheduled(at, filter),
        d.rescheduled(at, filter).reschedulable(filter) == d.reschedulable(filter),
{
}

/// A rescheduled domain's deadline is never before its retry time, and a
/// deadline that was not passed is kept.
pub proof fn lemma_reschedule_keeps_deadline(d: Domain, at: u64, filter: Option<Seq<char>>)
    requires
        at + EXPIRY_WINDOW <= u64::MAX,
        d.reschedulable(filter),
    ensures
        d.rescheduled(at, filter).retry.due == at,
        d.rescheduled(at, filter).expires >= d.rescheduled(at, filter).retry.due,
        d.expires >= at ==> d.rescheduled(at, filter).expires == d.expires,
        d.expires < at ==> d.rescheduled(at, filter).expires == at + EXPIRY_WINDOW,
{
}

/// After aggregation, a domain that was pending is `Completed` exactly
/// when all of its recipients are done, and is otherwise as it was; a
/// domain that was not pending is untouched. Aggregating again changes
/// nothing.
pub proof fn lemma_aggregation(domains: Seq<Domain>, recipients: Seq<Recipient>)
    ensures
        forall|i: int|
            0 <= i < domains.len() && (#[trigger] domains[i]).status.pending() ==> (aggregated_all(
                domains,
                recipients,
            )[i].status is Completed <==> all_done(recipients, i)),
        forall|i: int|
            0 <= i < domains.len() && !((#[trigger] domains[i]).status.pending() && all_done(
                recipients,
                i,
            )) ==> aggregated_all(domains, recipients)[i] == domains[i],
        forall|i: int|
            0 <= i < domains.len() && (#[trigger] aggregated_all(
                domains,
                recipients,
            )[i]).status.pending() ==> !all_done(recipients, i),
        aggregated_all(aggregated_all(domains, recipients), recipients) == aggregated_all(
            domains,
            recipients,
        ),
{
    let once = aggregated_all(domains, recipients);
    assert(aggregated_all(once, recipients) =~= once);
}

/// After a cancellation with a filter, whether it found a recipient or
/// not, no pending domain has all of its recipients done, and a domain
/// that was pending is `Completed` exactly when all of its recipients
/// are done. The record is removed exactly when no domain is pending
/// afterwards, and saved only while one is.
pub proof fn lemma_cancel_keeps_pending_records(
    before: Message,
    after: Message,
    filter: Seq<char>,
    out: Canceled,
)
    requires
        before.canceled_to(after, Some(filter), out),
    ensures
        out.change is Remove <==> !after.pending(),
        out.change is Save ==> after.pending(),
        out.matched ==> out.change.changed(),
        forall|i: int|
            0 <= i < after.domains@.len() && (#[trigger] after.domains@[i]).status.pending()
                ==> !all_done(after.recipients@, i),
        forall|i: int|
            0 <= i < before.domains@.len() && (#[trigger] before.domains@[i]).status.pending() ==> (
            after.domains@[i].status is Completed <==> all_done(after.recipients@, i)),
{
    lemma_aggregation(before.domains@, after.recipients@);
}

/// One step that the store or the event bus has to take.
#[derive(Debug, Clone, Copy, PartialEq, Eq, Structural)]
pub enum Effect {
    /// Take the record out of the scheduler's ordering at `due`.
    Unlink { due: u64 },
    /// Write the record and enter it in the scheduler's ordering at `due`.
    Write { due: u64 },
    /// Delete the record.
    Delete,
    /// Publish a reload signal, so that the scheduler looks over the queue
    /// again.
    Reload,
}

/// The steps that carry out a change, in the order in which they are to
/// be taken: a saved record leaves its previous position before it is
/// written at the new one; a removed record leaves its position and is
/// deleted. With `signal`, a change that is one ends with a reload
/// signal.
pub open spec fn effects_of(change: Change, signal: bool) -> Seq<Effect> {
    let steps = match change {
        Change::Unchanged => Seq::<Effect>::empty(),
        Change::Save { prev_event, next_event } => seq![
            Effect::Unlink { due: prev_event },
            Effect::Write { due: next_event },
        ],
        Change::Remove { prev_event } => seq![Effect::Unlink { due: prev_event }, Effect::Delete],
    };
    if signal && change.changed() {
        steps.push(Effect::Reload)
    } else {
        steps
    }
}

impl Change {
    /// The steps that carry out the change. Rescheduling signals the
    /// scheduler (`signal` on); cancellation does not.
    pub fn effects(&self, signal: bool) -> (steps: Vec<Effect>)
        ensures
            steps@ == effects_of(*self, signal),
    {
        let mut steps: Vec<Effect> = Vec::new();
        match self {
            Change::Unchanged => {},
            Change::Save { prev_event, next_event } => {
                steps.push(Effect::Unlink { due: *prev_event });
                steps.push(Effect::Write { due: *next_event });
            },
            Change::Remove { prev_event } => {
                steps.push(Effect::Unlink { due: *prev_event });
                steps.push(Effect::Delete);
            },
        }
        if signal && self.is_changed() {
            steps.push(Effect::Reload);
        }
        proof {
            assert(steps@ =~= effects_of(*self, signal));
        }
        steps
    }
}

impl Change {
    /// Whether the change ends with a reload signal.
    pub fn signals(&self, signal: bool) -> (r: bool)
        ensures
            r == (signal && self.changed()),
    {
        signal && self.is_changed()
    }
}

/// The steps of a change are its steps on the store, which are to be
/// taken together or not at all, followed by the reload signal where
/// there is one.
pub proof fn lemma_effects_split(change: Change, signal: bool)
    ensures
        effects_of(change, signal) == effects_of(change, false) + if signal && change.changed() {
            seq![Effect::Reload]
        } else {
            Seq::<Effect>::empty()
        },
        forall|i: int|
            0 <= i < effects_of(change, false).len() ==> !(#[trigger] effects_of(change, false)[i]
                is Reload),
{
    assert(effects_of(change, signal) =~= effects_of(change, false) + if signal
        && change.changed() {
        seq![Effect::Reload]
    } else {
        Seq::<Effect>::empty()
    });
}

/// The time to reschedule to: the time asked for where one was given and
/// accepted, the present time where none was given. A time that was
/// given and refused is bad input.
pub fn requested_time(asked: Option<Result<crate::datetime::Timestamp, ()>>, now: u64) -> (r: Result<
    u64,
    QueueError,
>)
    ensures
        r == match asked {
            None => Ok::<u64, QueueError>(now),
            Some(Ok(t)) => Ok(t.0),
            Some(Err(_)) => Err(QueueError::BadInput),
        },
{
    match asked {
        None => Ok(now),
        Some(Ok(t)) => Ok(t.into_inner()),
        Some(Err(_)) => Err(QueueError::BadInput),
    }
}

} // verus!
