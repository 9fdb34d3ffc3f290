//! Queue records as shown to an administrator: recipients grouped under
//! their domain, times as calendar dates, and every status with its
//! detail as text.

use crate::datetime::{from_timestamp, signed_seconds, timestamp_date, to_signed, DateTime};
use crate::decimal::{decimal, push_decimal};
use crate::queue;
use crate::queue::{DeliveryError, DomainStatus, QueueId, RecipientStatus, Response};
use crate::report::{report_id, QueueClass, ReportClass, ReportEvent};
use crate::status::Status;
use vstd::prelude::*;
use vstd::string::StringExecFns;

verus! {

/// A queued message as shown.
#[derive(Debug, PartialEq, Eq)]
pub struct Message {
    pub id: QueueId,
    pub return_path: String,
    pub domains: Vec<Domain>,
    pub created: DateTime,
    pub size: usize,
    pub priority: i16,
    pub env_id: Option<String>,
}

/// A recipient domain as shown, with its recipients.
#[derive(Debug, PartialEq, Eq)]
pub struct Domain {
    pub name: String,
    pub status: Status<String, String>,
    pub recipients: Vec<Recipient>,
    pub retry_num: u32,
    pub next_retry: Option<DateTime>,
    pub next_notify: Option<DateTime>,
    pub expires: DateTime,
}

/// A recipient as shown.
#[derive(Debug, PartialEq, Eq)]
pub struct Recipient {
    pub address: String,
    pub status: Status<String, String>,
    pub orcpt: Option<String>,
}

/// An assembled aggregate report with the header it belongs to. `R` is
/// the report body and `U` an address that the report is sent to; both
/// are carried as they are.
#[derive(Debug)]
pub enum Report<R, U> {
    Tls { id: String, domain: String, range_from: DateTime, range_to: DateTime, report: R, rua: Vec<U> },
    Dmarc {
        id: String,
        domain: String,
        range_from: DateTime,
        range_to: DateTime,
        report: R,
        rua: Vec<U>,
    },
}

/// A status whose details are texts.
pub type StatusText = Status<Seq<char>, Seq<char>>;

/// The text of an optional string.
pub open spec fn text_of(o: Option<String>) -> Option<Seq<char>> {
    match o {
        Some(s) => Some(s@),
        None => None,
    }
}

/// A shown status as plain text.
pub open spec fn status_text(s: Status<String, String>) -> StatusText {
    match s {
        Status::Scheduled => Status::Scheduled,
        Status::Completed(t) => Status::Completed(t@),
        Status::TemporaryFailure(t) => Status::TemporaryFailure(t@),
        Status::PermanentFailure(t) => Status::PermanentFailure(t@),
    }
}

/// A host's reply as one line of text.
pub open spec fn response_line(code: u16, esc: Seq<u8>, message: Seq<char>) -> Seq<char> {
    "Code: "@ + decimal(code as nat) + ", Enhanced code: "@ + decimal(esc[0] as nat) + "."@
        + decimal(esc[1] as nat) + "."@ + decimal(esc[2] as nat) + ", Message: "@ + message
}

impl Response {
    /// The reply as one line of text.
    pub open spec fn line(self) -> Seq<char> {
        response_line(self.code, self.esc@, self.message@)
    }
}

impl DeliveryError {
    /// The failure in words.
    pub open spec fn description(self) -> Seq<char> {
        match self {
            DeliveryError::DnsError(e) => "DNS lookup failed: "@ + e@,
            DeliveryError::UnexpectedResponse(r) => "Unexpected response from '"@
                + r.hostname.entity@ + "': "@ + r.response.line(),
            DeliveryError::ConnectionError(d) => "Connection to '"@ + d.entity@ + "' failed: "@
                + d.details@,
            DeliveryError::TlsError(d) => "TLS error from '"@ + d.entity@ + "': "@ + d.details@,
            DeliveryError::DaneError(d) => "DANE failed to authenticate '"@ + d.entity@ + "': "@
                + d.details@,
            DeliveryError::MtaStsError(e) => "MTA-STS auth failed: "@ + e@,
            DeliveryError::RateLimited => "Rate limited"@,
            DeliveryError::ConcurrencyLimited => "Too many concurrent connections to remote server"@,
            DeliveryError::Io(e) => "Queue error: "@ + e@,
        }
    }

    /// The failure in words.
    pub fn describe(&self) -> (s: String)
        ensures
            s@ == self.description(),
    {
        match self {
            DeliveryError::DnsError(e) => String::from_str("DNS lookup failed: ").concat(e.as_str()),
            DeliveryError::UnexpectedResponse(r) => {
                let line = response_text(&r.response);
                String::from_str("Unexpected response from '").concat(
                    r.hostname.entity.as_str(),
                ).concat("': ").concat(line.as_str())
            },
            DeliveryError::ConnectionError(d) => String::from_str("Connection to '").concat(
                d.entity.as_str(),
            ).concat("' failed: ").concat(d.details.as_str()),
            DeliveryError::TlsError(d) => String::from_str("TLS error from '").concat(
                d.entity.as_str(),
            ).concat("': ").concat(d.details.as_str()),
            DeliveryError::DaneError(d) => String::from_str("DANE failed to authenticate '").concat(
                d.entity.as_str(),
            ).concat("': ").concat(d.details.as_str()),
            DeliveryError::MtaStsError(e) => String::from_str("MTA-STS auth failed: ").concat(
                e.as_str(),
            ),
            DeliveryError::RateLimited => String::from_str("Rate limited"),
            DeliveryError::ConcurrencyLimited => String::from_str(
                "Too many concurrent connections to remote server",
            ),
            DeliveryError::Io(e) => String::from_str("Queue error: ").concat(e.as_str()),
        }
    }
}

/// A host's reply as text, by the `Display` of `smtp_proto::Response`,
/// which writes `Code: {}, Enhanced code: {}.{}.{}, Message: {}` with
/// the code, the three parts of the enhanced code and the message. The
/// numbers come out in plain decimal notation.
#[verifier::external_body]
pub(crate) fn response_text(r: &Response) -> (s: String)
    ensures
        s@ == r.line(),
{
    let r = smtp_proto::Response { code: r.code, esc: r.esc, message: r.message.as_str() };
    r.to_string()
}

/// The shown status of a domain.
pub open spec fn domain_status_text(s: DomainStatus) -> StatusText {
    match s {
        Status::Scheduled => Status::Scheduled,
        Status::Completed(_) => Status::Completed(Seq::empty()),
        Status::TemporaryFailure(e) => Status::TemporaryFailure(e.description()),
        Status::PermanentFailure(e) => Status::PermanentFailure(e.description()),
    }
}

/// The shown status of a recipient.
pub open spec fn recipient_status_text(s: RecipientStatus) -> StatusText {
    match s {
        Status::Scheduled => Status::Scheduled,
        Status::Completed(h) => Status::Completed(h.response.line()),
        Status::TemporaryFailure(h) => Status::TemporaryFailure(h.response.line()),
        Status::PermanentFailure(h) => Status::PermanentFailure(h.response.line()),
    }
}

/// The recipients of the domain at `idx`, in order.
pub open spec fn recipients_of(recipients: Seq<queue::Recipient>, idx: int) -> Seq<
    queue::Recipient,
>
    decreases recipients.len(),
{
    if recipients.len() == 0 {
        Seq::empty()
    } else if recipients.last().domain_idx == idx {
        recipients_of(recipients.drop_last(), idx).push(recipients.last())
    } else {
        recipients_of(recipients.drop_last(), idx)
    }
}

/// The date shown for a time given in seconds since the Unix epoch.
pub open spec fn shown_date(seconds: u64) -> DateTime {
    timestamp_date(signed_seconds(seconds))
}

/// `out` shows the recipient `r`.
pub open spec fn shows_recipient(r: queue::Recipient, out: Recipient) -> bool {
    &&& out.address@ == r.address@
    &&& status_text(out.status) == recipient_status_text(r.status)
    &&& text_of(out.orcpt) == text_of(r.orcpt)
}

/// `out` shows the domain at `idx` of `m` as it stands at `now`: its
/// name, status, retry count and times, and its recipients in order. The
/// notice time is shown only while it lies ahead.
pub open spec fn shows_domain(m: queue::Message, idx: int, now: u64, out: Domain) -> bool {
    let d = m.domains@[idx];
    let rs = recipients_of(m.recipients@, idx);
    &&& out.name@ == d.domain@
    &&& status_text(out.status) == domain_status_text(d.status)
    &&& out.retry_num == d.retry.inner
    &&& out.next_retry == Some(shown_date(d.retry.due))
    &&& out.next_notify == if d.notify.due > now {
        Some(shown_date(d.notify.due))
    } else {
        None
    }
    &&& out.expires == shown_date(d.expires)
    &&& out.recipients@.len() == rs.len()
    &&& forall|k: int| 0 <= k < rs.len() ==> shows_recipient(rs[k], #[trigger] out.recipients@[k])
}

/// `out` shows the message `m` as it stands at `now`.
pub open spec fn shows_message(m: queue::Message, now: u64, out: Message) -> bool {
    &&& out.id == m.id
    &&& out.return_path@ == m.return_path@
    &&& out.created == shown_date(m.created)
    &&& out.size == m.size
    &&& out.priority == m.priority
    &&& text_of(out.env_id) == text_of(m.env_id)
    &&& out.domains@.len() == m.domains@.len()
    &&& forall|i: int|
        0 <= i < m.domains@.len() ==> shows_domain(m, i, now, #[trigger] out.domains@[i])
}

/// A copy of an optional string.
pub fn copy_text(o: &Option<String>) -> (r: Option<String>)
    ensures
        text_of(r) == text_of(*o),
{
    match o {
        Some(s) => Some(s.clone()),
        None => None,
    }
}

/// The date shown for a time given in seconds since the Unix epoch.
pub fn date_of(seconds: u64) -> (d: DateTime)
    ensures
        d == shown_date(seconds),
{
    from_timestamp(to_signed(seconds))
}

impl Recipient {
    /// Shows a recipient of the queue.
    pub fn from(r: &queue::Recipient) -> (out: Recipient)
        ensures
            shows_recipient(*r, out),
    {
        Recipient {
            address: r.address.clone(),
            status: match &r.status {
                Status::Scheduled => Status::Scheduled,
                Status::Completed(h) => Status::Completed(response_text(&h.response)),
                Status::TemporaryFailure(h) => Status::TemporaryFailure(response_text(&h.response)),
                Status::PermanentFailure(h) => Status::PermanentFailure(response_text(&h.response)),
            },
            orcpt: copy_text(&r.orcpt),
        }
    }
}

impl Domain {
    /// Shows the domain at `idx` of `m` as it stands at `now`.
    pub fn from(m: &queue::Message, idx: usize, now: u64) -> (out: Domain)
        requires
            idx < m.domains@.len(),
        ensures
            shows_domain(*m, idx as int, now, out),
    {
        let d = &m.domains[idx];
        let n = m.recipients.len();
        let mut recipients: Vec<Recipient> = Vec::new();
        let mut j: usize = 0;
        while j < n
            invariant
                j <= n,
                n == m.recipients@.len(),
                recipients@.len() == recipients_of(m.recipients@.take(j as int), idx as int).len(),
                forall|k: int|
                    0 <= k < recipients@.len() ==> shows_recipient(
                        recipients_of(m.recipients@.take(j as int), idx as int)[k],
                        #[trigger] recipients@[k],
                    ),
            decreases n - j,
        {
            proof {
                assert(m.recipients@.take(j + 1).drop_last() == m.recipients@.take(j as int));
                assert(m.recipients@.take(j + 1).last() == m.recipients@[j as int]);
            }
            if m.recipients[j].domain_idx == idx {
                recipients.push(Recipient::from(&m.recipients[j]));
            }
            j += 1;
        }
        proof {
            assert(m.recipients@.take(n as int) == m.recipients@);
        }
        Domain {
            name: d.domain.clone(),
            status: match &d.status {
                Status::Scheduled => Status::Scheduled,
                Status::Completed(_) => Status::Completed(String::new()),
                Status::TemporaryFailure(e) => Status::TemporaryFailure(e.describe()),
                Status::PermanentFailure(e) => Status::PermanentFailure(e.describe()),
            },
            recipients,
            retry_num: d.retry.inner,
            next_retry: Some(date_of(d.retry.due)),
            next_notify: if d.notify.due > now {
                Some(date_of(d.notify.due))
            } else {
                None
            },
            expires: date_of(d.expires),
        }
    }
}

impl Message {
    /// Shows a message of the queue as it stands at `now`.
    pub fn from(message: &queue::Message, now: u64) -> (out: Message)
        ensures
            shows_message(*message, now, out),
    {
        let n = message.domains.len();
        let mut domains: Vec<Domain> = Vec::new();
        let mut i: usize = 0;
        while i < n
            invariant
                i <= n,
                n == message.domains@.len(),
                domains@.len() == i,
                forall|k: int|
                    0 <= k < i ==> shows_domain(*message, k, now, #[trigger] domains@[k]),
            decreases n - i,
        {
            domains.push(Domain::from(message, i, now));
            i += 1;
        }
        Message {
            id: message.id,
            return_path: message.return_path.clone(),
            created: date_of(message.created),
            size: message.size,
            priority: message.priority,
            env_id: copy_text(&message.env_id),
            domains,
        }
    }
}

impl<R, U> Report<R, U> {
    /// The DMARC report `report` for the header `event`, to be sent to
    /// `rua`. The sequence number of the header is the start of the
    /// report window and its due time the end.
    pub fn dmarc(event: ReportEvent, report: R, rua: Vec<U>) -> (out: Report<R, U>)
        ensures
            out matches Report::Dmarc { id, domain, range_from, range_to, report: body, rua: to }
                && id@ == report_id(ReportClass::Dmarc, event@) && domain@ == event.domain@
                && range_from == shown_date(event.seq_id) && range_to == shown_date(event.due)
                && body == report && to == rua,
    {
        let domain = event.domain.clone();
        let range_from = date_of(event.seq_id);
        let range_to = date_of(event.due);
        let id = QueueClass::DmarcReportHeader(event).queue_id();
        Report::Dmarc { id, domain, range_from, range_to, report, rua }
    }

    /// The TLS report `report` for the header `event`, to be sent to
    /// `rua`.
    pub fn tls(event: ReportEvent, report: R, rua: Vec<U>) -> (out: Report<R, U>)
        ensures
            out matches Report::Tls { id, domain, range_from, range_to, report: body, rua: to }
                && id@ == report_id(ReportClass::Tls, event@) && domain@ == event.domain@
                && range_from == shown_date(event.seq_id) && range_to == shown_date(event.due)
                && body == report && to == rua,
    {
        let domain = event.domain.clone();
        let range_from = date_of(event.seq_id);
        let range_to = date_of(event.due);
        let id = QueueClass::TlsReportHeader(event).queue_id();
        Report::Tls { id, domain, range_from, range_to, report, rua }
    }
}

/// Whether a priority is the default one, which is left out when a
/// message is written.
pub fn is_zero(num: &i16) -> (r: bool)
    ensures
        r == (*num == 0),
{
    *num == 0
}

} // verus!
