//! Scheduling decisions: which messages are due, when to wake next, and
//! what one pass over a due message does. Running the timer, waiting for
//! reload signals and attempting delivery are left to the caller.

use crate::admin::position;
use crate::queue::{any_pending, earlier, earliest_event, Domain, Message, QueueId};
use crate::status::Status;
use vstd::prelude::*;

verus! {

/// What the scheduler does with a message after a pass over it.
#[derive(Debug, Clone, Copy, PartialEq, Eq, Structural)]
pub enum Step {
    /// No domain is pending any more: delete the record.
    Remove,
    /// A pending domain has reached its retry time: attempt delivery.
    Deliver,
    /// No delivery is due, but a delay notice is: send it.
    Notify,
    /// Nothing is due before `until`.
    Wait { until: u64 },
}

/// The outcome of looking over the whole queue at one moment.
pub struct Plan {
    /// Identifiers of the messages that are due, in queue order.
    pub due: Vec<QueueId>,
    /// The earliest event that is still ahead, if there is one.
    pub wake: Option<u64>,
}

impl Domain {
    /// The deadline has passed while the domain was in temporary failure.
    pub open spec fn lapsed(self, now: u64) -> bool {
        self.status is TemporaryFailure && now >= self.expires
    }

    /// The domain after the expiry rule: a lapsed domain fails permanently
    /// with the failure it had; any other domain is left alone.
    pub open spec fn expired(self, now: u64) -> Domain {
        match self.status {
            Status::TemporaryFailure(e) if now >= self.expires => Domain {
                status: Status::PermanentFailure(e),
                ..self
            },
            _ => self,
        }
    }

    /// Delivery is due: the domain is pending and its capped retry time
    /// has come.
    pub open spec fn delivery_due(self, now: u64) -> bool {
        self.status.pending() && self.capped_retry() <= now
    }

    /// A delay notice is due: the domain is pending, the notice is
    /// outstanding and its time has come.
    pub open spec fn notice_due(self, now: u64) -> bool {
        self.status.pending() && self.notice_outstanding() && self.notify.due <= now
    }

    /// The domain after its due notice was sent.
    pub open spec fn notified(self, now: u64) -> Domain {
        if self.notice_due(now) {
            Domain { notify: crate::queue::Schedule { due: self.notify.due, inner: 1 }, ..self }
        } else {
            self
        }
    }
}

/// Every domain after the expiry rule.
pub open spec fn expired_all(domains: Seq<Domain>, now: u64) -> Seq<Domain> {
    Seq::new(domains.len(), |i: int| domains[i].expired(now))
}

/// Every domain after its due notice was sent.
pub open spec fn notified_all(domains: Seq<Domain>, now: u64) -> Seq<Domain> {
    Seq::new(domains.len(), |i: int| domains[i].notified(now))
}

/// Some domain is due for delivery.
pub open spec fn any_delivery_due(domains: Seq<Domain>, now: u64) -> bool {
    exists|i: int| 0 <= i < domains.len() && (#[trigger] domains[i]).delivery_due(now)
}

/// Some domain is due for a delay notice.
pub open spec fn any_notice_due(domains: Seq<Domain>, now: u64) -> bool {
    exists|i: int| 0 <= i < domains.len() && (#[trigger] domains[i]).notice_due(now)
}

/// The step that follows from the domains as the expiry rule left them.
pub open spec fn step_for(domains: Seq<Domain>, now: u64) -> Step {
    if !any_pending(domains) {
        Step::Remove
    } else if any_delivery_due(domains, now) {
        Step::Deliver
    } else if any_notice_due(domains, now) {
        Step::Notify
    } else {
        Step::Wait { until: position(earliest_event(domains)) }
    }
}

/// A message is due when it has an event that is not in the future.
pub open spec fn is_due(m: Message, now: u64) -> bool {
    m.event() matches Some(t) && t <= now
}

/// Identifiers of the due messages, in order.
pub open spec fn due_ids(messages: Seq<Message>, now: u64) -> Seq<QueueId>
    decreases messages.len(),
{
    if messages.len() == 0 {
        Seq::empty()
    } else if is_due(messages.last(), now) {
        due_ids(messages.drop_last(), now).push(messages.last().id)
    } else {
        due_ids(messages.drop_last(), now)
    }
}

/// The earliest event after `now` over all messages.
pub open spec fn next_wake(messages: Seq<Message>, now: u64) -> Option<u64>
    decreases messages.len(),
{
    if messages.len() == 0 {
        None
    } else {
        let before = next_wake(messages.drop_last(), now);
        match messages.last().event() {
            Some(t) if t > now => match before {
                Some(b) => Some(earlier(b, t)),
                None => Some(t),
            },
            _ => before,
        }
    }
}

impl Message {
    /// Applies the expiry rule to every domain and reports whether any
    /// domain lapsed.
    pub fn expire(&mut self, now: u64) -> (changed: bool)
        ensures
            final(self).domains@ == expired_all(old(self).domains@, now),
            final(self).recipients == old(self).recipients,
            old(self).same_envelope(*final(self)),
            old(self).wf() ==> final(self).wf(),
            changed == exists|i: int|
                0 <= i < old(self).domains@.len() && (#[trigger] old(self).domains@[i]).lapsed(now),
    {
        let n = self.domains.len();
        let mut changed = false;
        let mut i: usize = 0;
        while i < n
            invariant
                i <= n,
                n == self.domains@.len(),
                n == old(self).domains@.len(),
                forall|k: int|
                    0 <= k < i ==> #[trigger] self.domains@[k] == old(self).domains@[k].expired(now),
                forall|k: int| i <= k < n ==> #[trigger] self.domains@[k] == old(self).domains@[k],
                changed == exists|k: int|
                    0 <= k < i && (#[trigger] old(self).domains@[k]).lapsed(now),
                self.recipients == old(self).recipients,
                old(self).same_envelope(*self),
            decreases n - i,
        {
            if now >= self.domains[i].expires {
                let mut status = Status::Scheduled;
                core::mem::swap(&mut self.domains[i].status, &mut status);
                match status {
                    Status::TemporaryFailure(e) => {
                        self.domains[i].status = Status::PermanentFailure(e);
                        changed = true;
                    },
                    other => {
                        self.domains[i].status = other;
                    },
                }
            }
            proof {
                if old(self).domains@[i as int].lapsed(now) {
                    assert(changed);
                }
            }
            i += 1;
        }
        proof {
            assert(self.domains@ =~= expired_all(old(self).domains@, now));
        }
        changed
    }

    /// Records that the delay notices due at `now` were sent.
    pub fn mark_notified(&mut self, now: u64)
        ensures
            final(self).domains@ == notified_all(old(self).domains@, now),
            final(self).recipients == old(self).recipients,
            old(self).same_envelope(*final(self)),
            old(self).wf() ==> final(self).wf(),
    {
        let n = self.domains.len();
        let mut i: usize = 0;
        while i < n
            invariant
                i <= n,
                n == self.domains@.len(),
                n == old(self).domains@.len(),
                forall|k: int|
                    0 <= k < i ==> #[trigger] self.domains@[k] == old(self).domains@[k].notified(now),
                forall|k: int| i <= k < n ==> #[trigger] self.domains@[k] == old(self).domains@[k],
                self.recipients == old(self).recipients,
                old(self).same_envelope(*self),
            decreases n - i,
        {
            if self.domains[i].status.is_pending() && self.domains[i].notify.inner == 0
                && self.domains[i].notify.due < self.domains[i].expires && self.domains[i].notify.due
                <= now {
                self.domains[i].notify.inner = 1;
            }
            i += 1;
        }
        proof {
            assert(self.domains@ =~= notified_all(old(self).domains@, now));
        }
    }

    /// One scheduler pass over the message at time `now`: the expiry rule
    /// is applied to every domain, and the step to take follows from the
    /// domains as they then stand.
    pub fn pass(&mut self, now: u64) -> (step: Step)
        ensures
            final(self).domains@ == expired_all(old(self).domains@, now),
            final(self).recipients == old(self).recipients,
            old(self).same_envelope(*final(self)),
            old(self).wf() ==> final(self).wf(),
            step == step_for(final(self).domains@, now),
    {
        self.expire(now);
        if !self.has_pending() {
            return Step::Remove;
        }
        let n = self.domains.len();
        let mut deliver = false;
        let mut notify = false;
        let mut i: usize = 0;
        while i < n
            invariant
                i <= n,
                n == self.domains@.len(),
                deliver == exists|k: int|
                    0 <= k < i && (#[trigger] self.domains@[k]).delivery_due(now),
                notify == exists|k: int| 0 <= k < i && (#[trigger] self.domains@[k]).notice_due(now),
            decreases n - i,
        {
            let d = &self.domains[i];
            if d.status.is_pending() {
                if d.retry.due <= now || d.expires <= now {
                    deliver = true;
                }
                if d.notify.inner == 0 && d.notify.due < d.expires && d.notify.due <= now {
                    notify = true;
                }
            }
            proof {
                if self.domains@[i as int].delivery_due(now) {
                    assert(deliver);
                }
                if self.domains@[i as int].notice_due(now) {
                    assert(notify);
                }
            }
            i += 1;
        }
        if deliver {
            Step::Deliver
        } else if notify {
            Step::Notify
        } else {
            Step::Wait { until: crate::admin::unwrap_event(self.next_event()) }
        }
    }
}

/// Looks over the queue at time `now`: which messages are due, and the
/// earliest event that is still ahead.
pub fn plan(messages: &Vec<Message>, now: u64) -> (p: Plan)
    ensures
        p.due@ == due_ids(messages@, now),
        p.wake == next_wake(messages@, now),
{
    let n = messages.len();
    let mut due: Vec<QueueId> = Vec::new();
    let mut wake: Option<u64> = None;
    let mut i: usize = 0;
    while i < n
        invariant
            i <= n,
            n == messages@.len(),
            due@ == due_ids(messages@.take(i as int), now),
            wake == next_wake(messages@.take(i as int), now),
        decreases n - i,
    {
        proof {
            assert(messages@.take(i + 1).drop_last() == messages@.take(i as int));
        }
        match messages[i].next_event() {
            Some(t) => {
                if t <= now {
                    due.push(messages[i].id);
                } else {
                    wake = match wake {
                        Some(b) => Some(if t < b { t } else { b }),
                        None => Some(t),
                    };
                }
            },
            None => {},
        }
        i += 1;
    }
    proof {
        assert(messages@.take(n as int) == messages@);
    }
    Plan { due, wake }
}

/// How long the scheduler sleeps before the next wake time: not at all
/// when it has come, `None` (until a reload signal) when there is none.
pub fn sleep_for(wake: Option<u64>, now: u64) -> (r: Option<u64>)
    ensures
        r == match wake {
            Some(t) => Some(if t > now { (t - now) as u64 } else { 0 }),
            None => None,
        },
{
    match wake {
        Some(t) => Some(if t > now { t - now } else { 0 }),
        None => None,
    }
}

/// Once the deadline has passed, a pass moves a domain out of temporary
/// failure into permanent failure, whatever its retry count, keeping the
/// failure detail; it stays so at every later time, and no other domain
/// is touched.
pub proof fn lemma_expiry(d: Domain, now: u64, later: u64)
    requires
        now <= later,
    ensures
        d.lapsed(now) ==> d.expired(now).status is PermanentFailure && d.expired(
            now,
        ).status->PermanentFailure_0 == d.status->TemporaryFailure_0,
        d.lapsed(now) ==> d.lapsed(later),
        !d.lapsed(now) ==> d.expired(now) == d,
        d.expired(now).lapsed(later) ==> !d.lapsed(now),
        d.expired(now).expired(later) == d.expired(later),
        d.expired(now).retry == d.retry,
        d.expired(now).expires == d.expires,
{
}

/// After a pass no domain is left in temporary failure past its
/// deadline, and the record is removed exactly when no domain is pending.
pub proof fn lemma_pass(domains: Seq<Domain>, now: u64)
    ensures
        forall|i: int|
            0 <= i < domains.len() ==> !(#[trigger] expired_all(domains, now)[i]).lapsed(now),
        forall|i: int|
            0 <= i < domains.len() && (#[trigger] domains[i]).lapsed(now) ==> expired_all(
                domains,
                now,
            )[i].status is PermanentFailure,
        step_for(expired_all(domains, now), now) is Remove <==> !any_pending(
            expired_all(domains, now),
        ),
        step_for(expired_all(domains, now), now) matches Step::Wait { until } ==> until > now,
{
    let after = expired_all(domains, now);
    if step_for(after, now) is Wait {
        crate::queue::lemma_earliest_event_is_minimum(after);
        let t = earliest_event(after)->0;
        let i = choose|i: int| 0 <= i < after.len() && (#[trigger] after[i]).event() == Some(t);
        assert(!after[i].delivery_due(now));
        assert(!after[i].notice_due(now));
    }
}

/// The record after a delivery attempt: a message that the delivery side
/// handed back, and that may follow the record, takes its place with its
/// domains aggregated; an attempt that failed to take place, or that
/// handed back anything else, leaves the record as it was.
pub fn settle<E>(before: Message, attempt: Result<Message, E>) -> (after: Message)
    ensures
        match attempt {
            Ok(updated) if may_follow(before, updated) => {
                &&& after.domains@ == crate::admin::aggregated_all(
                    updated.domains@,
                    updated.recipients@,
                )
                &&& after.recipients == updated.recipients
                &&& updated.same_envelope(after)
            },
            _ => after == before,
        },
        before.wf() ==> after.wf(),
{
    match attempt {
        Ok(updated) => {
            if before.accepts(&updated) {
                proof {
                    if before.wf() {
                        assert forall|j: int| 0 <= j < updated.recipients@.len() implies (
                        #[trigger] updated.recipients@[j]).domain_idx < updated.domains@.len() by {
                            assert(before.recipients@[j].domain_idx < before.domains@.len());
                        }
                    }
                }
                let mut updated = updated;
                updated.aggregate();
                updated
            } else {
                before
            }
        },
        Err(_) => before,
    }
}

/// `after` may follow `before` as the outcome of a delivery attempt: it
/// is the same message with the same recipients of the same domains, and
/// the status of every domain and of every recipient may follow the one
/// it had.
pub open spec fn may_follow(before: Message, after: Message) -> bool {
    &&& after.id == before.id
    &&& after.domains@.len() == before.domains@.len()
    &&& after.recipients@.len() == before.recipients@.len()
    &&& forall|i: int|
        0 <= i < before.domains@.len() ==> (#[trigger] before.domains@[i]).status.may_become(
            after.domains@[i].status,
        )
    &&& forall|j: int|
        0 <= j < before.recipients@.len() ==> (#[trigger] before.recipients@[j]).status.may_become(
            after.recipients@[j].status,
        ) && after.recipients@[j].domain_idx == before.recipients@[j].domain_idx
}

impl Message {
    /// Whether `after` may follow this message as the outcome of a
    /// delivery attempt.
    pub fn accepts(&self, after: &Message) -> (r: bool)
        ensures
            r == may_follow(*self, *after),
    {
        if after.id != self.id || after.domains.len() != self.domains.len() || after.recipients.len()
            != self.recipients.len() {
            return false;
        }
        let n = self.domains.len();
        let mut i: usize = 0;
        while i < n
            invariant
                i <= n,
                n == self.domains@.len(),
                n == after.domains@.len(),
                forall|k: int|
                    0 <= k < i ==> (#[trigger] self.domains@[k]).status.may_become(
                        after.domains@[k].status,
                    ),
            decreases n - i,
        {
            if !self.domains[i].status.can_become(&after.domains[i].status) {
                return false;
            }
            i += 1;
        }
        let m = self.recipients.len();
        let mut j: usize = 0;
        while j < m
            invariant
                j <= m,
                m == self.recipients@.len(),
                m == after.recipients@.len(),
                forall|k: int|
                    0 <= k < j ==> (#[trigger] self.recipients@[k]).status.may_become(
                        after.recipients@[k].status,
                    ) && after.recipients@[k].domain_idx == self.recipients@[k].domain_idx,
            decreases m - j,
        {
            if !self.recipients[j].status.can_become(&after.recipients[j].status)
                || after.recipients[j].domain_idx != self.recipients[j].domain_idx {
                return false;
            }
            j += 1;
        }
        true
    }
}

/// The scheduler's own transitions stay within the state machine: the
/// expiry rule and aggregation each take a domain to a status that may
/// follow the one it had, and neither brings a finished domain back.
pub proof fn lemma_transitions(d: Domain, now: u64, recipients: Seq<crate::queue::Recipient>, idx: int)
    ensures
        d.status.may_become(d.expired(now).status),
        d.status.may_become(d.aggregated(recipients, idx).status),
        d.status.done() ==> d.expired(now) == d && d.aggregated(recipients, idx) == d,
{
}

/// The time after `now`, as far as time goes.
pub open spec fn soon_after(now: u64) -> u64 {
    if now < u64::MAX {
        (now + 1) as u64
    } else {
        now
    }
}

/// When the scheduler wakes after a pass over `messages` at `now`: right
/// after `now` while a message is still due, else at the earliest event
/// that is ahead, and only on a signal where there is none. Messages
/// without a pending domain have no event and count for nothing.
pub fn wake_after_pass(messages: &Vec<Message>, now: u64) -> (r: Option<u64>)
    ensures
        r == if due_ids(messages@, now).len() > 0 {
            Some(soon_after(now))
        } else {
            next_wake(messages@, now)
        },
{
    let ahead = plan(messages, now);
    if ahead.due.len() > 0 {
        Some(if now < u64::MAX { now + 1 } else { now })
    } else {
        ahead.wake
    }
}

} // verus!
