//! Listings of queued messages and of report headers, filtered and cut
//! into pages.

use crate::admin::any_addressed;
use crate::management::view::{shows_message, Message};
use crate::paging::{on_page_at, page_len, page_offset};
use crate::queue;
use crate::queue::{earliest_retry, QueueId};
use crate::report::{report_id, QueueClass, ReportClass, ReportEvent};
use crate::text::{admits, contains, occurs_in, opt_text, passes, same_text};
use vstd::prelude::*;

verus! {

/// What a listing of messages is narrowed by. `text` is looked for in the
/// sender and in the recipients; where it is absent, `from` is looked for
/// in the sender and `to` in the recipients. `before` and `after` bound
/// the next delivery time.
pub struct MessageFilter<'a> {
    pub text: Option<&'a str>,
    pub from: Option<&'a str>,
    pub to: Option<&'a str>,
    pub before: Option<u64>,
    pub after: Option<u64>,
}

/// What a listing of report headers is narrowed by.
pub struct ReportFilter<'a> {
    pub domain: Option<&'a str>,
    pub class: Option<ReportClass>,
}

/// One page of a listing, with the number of matches in all.
pub struct Page<T> {
    pub items: Vec<T>,
    pub total: usize,
}

impl<'a> MessageFilter<'a> {
    /// The sender and the recipients pass.
    pub open spec fn accepts_parties(self, m: queue::Message) -> bool {
        match self.text {
            Some(t) => occurs_in(m.return_path@, t@) || any_addressed(m.recipients@, t@),
            None => admits(opt_text(self.from), m.return_path@) && (match self.to {
                Some(t) => any_addressed(m.recipients@, t@),
                None => true,
            }),
        }
    }

    /// The next delivery time of `m` at `now` lies within the bounds.
    pub open spec fn accepts_time(self, m: queue::Message, now: u64) -> bool {
        &&& self.before matches Some(b) ==> earliest_retry(m.domains@, now) < b
        &&& self.after matches Some(a) ==> earliest_retry(m.domains@, now) > a
    }

    /// The message passes the filter at time `now`.
    pub open spec fn accepts(self, m: queue::Message, now: u64) -> bool {
        self.accepts_parties(m) && self.accepts_time(m, now)
    }

    /// Whether the message passes the filter at time `now`.
    pub fn matches(&self, m: &queue::Message, now: u64) -> (r: bool)
        ensures
            r == self.accepts(*m, now),
    {
        let parties = match self.text {
            Some(t) => contains(m.return_path.as_str(), t) || any_recipient(m, t),
            None => passes(self.from, m.return_path.as_str()) && (match self.to {
                Some(t) => any_recipient(m, t),
                None => true,
            }),
        };
        if !parties {
            return false;
        }
        if self.before.is_none() && self.after.is_none() {
            return true;
        }
        let next = m.next_delivery_event(now);
        (match self.before {
            Some(b) => next < b,
            None => true,
        }) && (match self.after {
            Some(a) => next > a,
            None => true,
        })
    }
}

/// Whether the address of some recipient of `m` contains `text`.
pub fn any_recipient(m: &queue::Message, text: &str) -> (r: bool)
    ensures
        r == any_addressed(m.recipients@, text@),
{
    let n = m.recipients.len();
    let mut j: usize = 0;
    while j < n
        invariant
            j <= n,
            n == m.recipients@.len(),
            forall|k: int| 0 <= k < j ==> !occurs_in((#[trigger] m.recipients@[k]).address@, text@),
        decreases n - j,
    {
        if contains(m.recipients[j].address.as_str(), text) {
            return true;
        }
        j += 1;
    }
    false
}

/// The messages that pass `filter` at `now`, in order.
pub open spec fn matching_messages(
    messages: Seq<queue::Message>,
    filter: MessageFilter,
    now: u64,
) -> Seq<queue::Message>
    decreases messages.len(),
{
    if messages.len() == 0 {
        Seq::empty()
    } else if filter.accepts(messages.last(), now) {
        matching_messages(messages.drop_last(), filter, now).push(messages.last())
    } else {
        matching_messages(messages.drop_last(), filter, now)
    }
}

impl<'a> ReportFilter<'a> {
    /// A record passes when it is a header (its sequence number is
    /// zero), of the class asked for, for a domain that contains the
    /// text asked for.
    pub open spec fn accepts(self, class: ReportClass, domain: Seq<char>, seq_id: u64) -> bool {
        &&& seq_id == 0
        &&& self.class matches Some(c) ==> c == class
        &&& admits(opt_text(self.domain), domain)
    }

    /// Whether the record passes the filter.
    pub fn matches(&self, class: ReportClass, event: &ReportEvent) -> (r: bool)
        ensures
            r == self.accepts(class, event.domain@, event.seq_id),
    {
        if event.seq_id != 0 {
            return false;
        }
        let class_ok = match self.class {
            Some(c) => c == class,
            None => true,
        };
        class_ok && passes(self.domain, event.domain.as_str())
    }
}

/// The class that a `type` parameter names: `dmarc` or `tls`. Any other
/// value names none, and then the listing is not narrowed by class.
pub fn class_named(name: &str) -> (r: Option<ReportClass>)
    ensures
        r == if name@ == "dmarc"@ {
            Some(ReportClass::Dmarc)
        } else if name@ == "tls"@ {
            Some(ReportClass::Tls)
        } else {
            None
        },
{
    if same_text(name, "dmarc") {
        Some(ReportClass::Dmarc)
    } else if same_text(name, "tls") {
        Some(ReportClass::Tls)
    } else {
        None
    }
}

/// The report records that pass `filter`, in order.
pub open spec fn matching_reports(
    records: Seq<(ReportClass, ReportEvent)>,
    filter: ReportFilter,
) -> Seq<(ReportClass, ReportEvent)>
    decreases records.len(),
{
    if records.len() == 0 {
        Seq::empty()
    } else if filter.accepts(records.last().0, records.last().1.domain@, records.last().1.seq_id) {
        matching_reports(records.drop_last(), filter).push(records.last())
    } else {
        matching_reports(records.drop_last(), filter)
    }
}

/// Lists the identifiers of the messages that pass `filter` at `now`:
/// those on page `page` of `limit` entries, and the number of all that
/// passed.
pub fn list_message_ids(
    messages: &Vec<queue::Message>,
    filter: &MessageFilter,
    page: usize,
    limit: usize,
    now: u64,
) -> (r: Page<QueueId>)
    ensures
        r.total == matching_messages(messages@, *filter, now).len(),
        r.items@.len() == page_len(page_offset(page, limit), limit as int, r.total as int),
        forall|k: int|
            0 <= k < r.items@.len() ==> #[trigger] r.items@[k] == matching_messages(
                messages@,
                *filter,
                now,
            )[page_offset(page, limit) + k].id,
{
    let ghost skip = page_offset(page, limit);
    let n = messages.len();
    let mut items: Vec<QueueId> = Vec::new();
    let mut total: usize = 0;
    let mut i: usize = 0;
    while i < n
        invariant
            i <= n,
            n == messages@.len(),
            skip == page_offset(page, limit),
            total == matching_messages(messages@.take(i as int), *filter, now).len(),
            total <= i,
            items@.len() == page_len(skip, limit as int, total as int),
            forall|k: int|
                0 <= k < items@.len() ==> #[trigger] items@[k] == matching_messages(
                    messages@.take(i as int),
                    *filter,
                    now,
                )[skip + k].id,
        decreases n - i,
    {
        proof {
            assert(messages@.take(i + 1).drop_last() == messages@.take(i as int));
            assert(messages@.take(i + 1).last() == messages@[i as int]);
        }
        if filter.matches(&messages[i], now) {
            let on_page = on_page_at(page, limit, total);
            if on_page {
                items.push(messages[i].id);
            }
            total += 1;
        }
        i += 1;
    }
    proof {
        assert(messages@.take(n as int) == messages@);
    }
    Page { items, total }
}

/// Lists the messages that pass `filter` at `now` as shown records:
/// those on page `page` of `limit` entries, and the number of all that
/// passed.
pub fn list_messages(
    messages: &Vec<queue::Message>,
    filter: &MessageFilter,
    page: usize,
    limit: usize,
    now: u64,
) -> (r: Page<Message>)
    ensures
        r.total == matching_messages(messages@, *filter, now).len(),
        r.items@.len() == page_len(page_offset(page, limit), limit as int, r.total as int),
        forall|k: int|
            0 <= k < r.items@.len() ==> shows_message(
                matching_messages(messages@, *filter, now)[page_offset(page, limit) + k],
                now,
                #[trigger] r.items@[k],
            ),
{
    let ghost skip = page_offset(page, limit);
    let n = messages.len();
    let mut items: Vec<Message> = Vec::new();
    let mut total: usize = 0;
    let mut i: usize = 0;
    while i < n
        invariant
            i <= n,
            n == messages@.len(),
            skip == page_offset(page, limit),
            total == matching_messages(messages@.take(i as int), *filter, now).len(),
            total <= i,
            items@.len() == page_len(skip, limit as int, total as int),
            forall|k: int|
                0 <= k < items@.len() ==> shows_message(
                    matching_messages(messages@.take(i as int), *filter, now)[skip + k],
                    now,
                    #[trigger] items@[k],
                ),
        decreases n - i,
    {
        proof {
            assert(messages@.take(i + 1).drop_last() == messages@.take(i as int));
            assert(messages@.take(i + 1).last() == messages@[i as int]);
        }
        if filter.matches(&messages[i], now) {
            let on_page = on_page_at(page, limit, total);
            if on_page {
                items.push(Message::from(&messages[i], now));
            }
            total += 1;
        }
        i += 1;
    }
    proof {
        assert(messages@.take(n as int) == messages@);
    }
    Page { items, total }
}

/// Lists the external identifiers of the report headers among `records`
/// that pass `filter`: those on page `page` of `limit` entries, and the
/// number of all that passed.
pub fn list_reports(
    records: &Vec<(ReportClass, ReportEvent)>,
    filter: &ReportFilter,
    page: usize,
    limit: usize,
) -> (r: Page<String>)
    ensures
        r.total == matching_reports(records@, *filter).len(),
        r.items@.len() == page_len(page_offset(page, limit), limit as int, r.total as int),
        forall|k: int|
            0 <= k < r.items@.len() ==> (#[trigger] r.items@[k])@ == report_id(
                matching_reports(records@, *filter)[page_offset(page, limit) + k].0,
                matching_reports(records@, *filter)[page_offset(page, limit) + k].1@,
            ),
{
    let ghost skip = page_offset(page, limit);
    let n = records.len();
    let mut items: Vec<String> = Vec::new();
    let mut total: usize = 0;
    let mut i: usize = 0;
    while i < n
        invariant
            i <= n,
            n == records@.len(),
            skip == page_offset(page, limit),
            total == matching_reports(records@.take(i as int), *filter).len(),
            total <= i,
            items@.len() == page_len(skip, limit as int, total as int),
            forall|k: int|
                0 <= k < items@.len() ==> (#[trigger] items@[k])@ == report_id(
                    matching_reports(records@.take(i as int), *filter)[skip + k].0,
                    matching_reports(records@.take(i as int), *filter)[skip + k].1@,
                ),
        decreases n - i,
    {
        proof {
            assert(records@.take(i + 1).drop_last() == records@.take(i as int));
            assert(records@.take(i + 1).last() == records@[i as int]);
        }
        let class = records[i].0;
        let event = &records[i].1;
        if filter.matches(class, event) {
            let on_page = on_page_at(page, limit, total);
            if on_page {
                items.push(external_id(class, event));
            }
            total += 1;
        }
        i += 1;
    }
    proof {
        assert(records@.take(n as int) == records@);
    }
    Page { items, total }
}

/// The external identifier of a report record.
pub fn external_id(class: ReportClass, event: &ReportEvent) -> (id: String)
    ensures
        id@ == report_id(class, event@),
{
    let header = ReportEvent {
        due: event.due,
        policy_hash: event.policy_hash,
        seq_id: event.seq_id,
        domain: event.domain.clone(),
    };
    match class {
        ReportClass::Dmarc => QueueClass::DmarcReportHeader(header).queue_id(),
        ReportClass::Tls => QueueClass::TlsReportHeader(header).queue_id(),
    }
}

} // verus!
