use mta_queue::datetime::{DateTime, Timestamp};
use mta_queue::management::list::{list_message_ids, list_messages, MessageFilter};
use mta_queue::management::view::{is_zero, Message, Report};
use mta_queue::queue;
use mta_queue::queue::{DeliveryError, ErrorDetails, HostResponse, Response, Schedule};
use mta_queue::report::ReportEvent;
use mta_queue::status::Status;

fn date(year: u16, month: u8, day: u8, hour: u8, minute: u8, second: u8) -> DateTime {
    DateTime { year, month, day, hour, minute, second, tz_before_gmt: false, tz_hour: 0, tz_minute: 0 }
}

fn response(code: u16, esc: [u8; 3], message: &str) -> Response {
    Response { code, esc, message: message.to_string() }
}

fn sample() -> queue::Message {
    queue::Message {
        id: 42,
        created: 86_400,
        return_path: "sender@origin.org".to_string(),
        recipients: vec![
            queue::Recipient {
                domain_idx: 1,
                address: "c@two.net".to_string(),
                status: Status::TemporaryFailure(HostResponse {
                    hostname: ErrorDetails { entity: "mx.two.net".to_string(), details: "RCPT TO".to_string() },
                    response: response(451, [4, 7, 1], "Try again later"),
                }),
                orcpt: Some("rfc822;c@two.net".to_string()),
            },
            queue::Recipient {
                domain_idx: 0,
                address: "a@one.org".to_string(),
                status: Status::Completed(HostResponse {
                    hostname: "mx.one.org".to_string(),
                    response: response(250, [2, 0, 0], "OK"),
                }),
                orcpt: None,
            },
            queue::Recipient {
                domain_idx: 1,
                address: "d@two.net".to_string(),
                status: Status::Scheduled,
                orcpt: None,
            },
        ],
        domains: vec![
            queue::Domain {
                domain: "one.org".to_string(),
                retry: Schedule { due: 0, inner: 3 },
                notify: Schedule { due: 1_000, inner: 0 },
                expires: 946_684_800,
                status: Status::Completed(()),
            },
            queue::Domain {
                domain: "two.net".to_string(),
                retry: Schedule { due: 1_700_000_000, inner: 1 },
                notify: Schedule { due: 1_700_000_600, inner: 0 },
                expires: 1_700_086_400,
                status: Status::TemporaryFailure(DeliveryError::ConnectionError(ErrorDetails {
                    entity: "mx.two.net".to_string(),
                    details: "timed out".to_string(),
                })),
            },
        ],
        size: 2048,
        priority: -1,
        env_id: Some("env-1".to_string()),
    }
}

#[test]
fn shown_message_groups_recipients_under_domains() {
    let shown = Message::from(&sample(), 1_700_000_000);
    assert_eq!(shown.id, 42);
    assert_eq!(shown.return_path, "sender@origin.org");
    assert_eq!(shown.created, date(1970, 1, 2, 0, 0, 0));
    assert_eq!(shown.size, 2048);
    assert_eq!(shown.priority, -1);
    assert_eq!(shown.env_id.as_deref(), Some("env-1"));
    assert_eq!(shown.domains.len(), 2);

    let one = &shown.domains[0];
    assert_eq!(one.name, "one.org");
    assert_eq!(one.status, Status::Completed(String::new()));
    assert_eq!(one.retry_num, 3);
    assert_eq!(one.next_retry, Some(date(1970, 1, 1, 0, 0, 0)));
    assert_eq!(one.next_notify, None);
    assert_eq!(one.expires, date(2000, 1, 1, 0, 0, 0));
    assert_eq!(one.recipients.len(), 1);
    assert_eq!(one.recipients[0].address, "a@one.org");
    assert_eq!(
        one.recipients[0].status,
        Status::Completed("Code: 250, Enhanced code: 2.0.0, Message: OK".to_string())
    );
    assert_eq!(one.recipients[0].orcpt, None);

    let two = &shown.domains[1];
    assert_eq!(two.name, "two.net");
    assert_eq!(
        two.status,
        Status::TemporaryFailure("Connection to 'mx.two.net' failed: timed out".to_string())
    );
    assert_eq!(two.retry_num, 1);
    assert_eq!(two.next_retry, Some(date(2023, 11, 14, 22, 13, 20)));
    assert_eq!(two.next_notify, Some(date(2023, 11, 14, 22, 23, 20)));
    assert_eq!(two.expires, date(2023, 11, 15, 22, 13, 20));
    assert_eq!(two.recipients.len(), 2);
    assert_eq!(two.recipients[0].address, "c@two.net");
    assert_eq!(
        two.recipients[0].status,
        Status::TemporaryFailure("Code: 451, Enhanced code: 4.7.1, Message: Try again later".to_string())
    );
    assert_eq!(two.recipients[0].orcpt.as_deref(), Some("rfc822;c@two.net"));
    assert_eq!(two.recipients[1].address, "d@two.net");
    assert_eq!(two.recipients[1].status, Status::Scheduled);
}

#[test]
fn shown_notice_is_hidden_once_its_time_has_come() {
    let shown = Message::from(&sample(), 1_700_000_600);
    assert_eq!(shown.domains[1].next_notify, None);
    let shown = Message::from(&sample(), 1_700_000_599);
    assert_eq!(shown.domains[1].next_notify, Some(date(2023, 11, 14, 22, 23, 20)));
}

#[test]
fn delivery_errors_read_as_sentences() {
    let details = ErrorDetails { entity: "mx.example.org".to_string(), details: "refused".to_string() };
    let cases = vec![
        (DeliveryError::DnsError("no such host".to_string()), "DNS lookup failed: no such host"),
        (
            DeliveryError::UnexpectedResponse(HostResponse {
                hostname: details.clone(),
                response: response(550, [5, 1, 1], "No such user"),
            }),
            "Unexpected response from 'mx.example.org': Code: 550, Enhanced code: 5.1.1, Message: No such user",
        ),
        (DeliveryError::ConnectionError(details.clone()), "Connection to 'mx.example.org' failed: refused"),
        (DeliveryError::TlsError(details.clone()), "TLS error from 'mx.example.org': refused"),
        (DeliveryError::DaneError(details), "DANE failed to authenticate 'mx.example.org': refused"),
        (DeliveryError::MtaStsError("policy".to_string()), "MTA-STS auth failed: policy"),
        (DeliveryError::RateLimited, "Rate limited"),
        (DeliveryError::ConcurrencyLimited, "Too many concurrent connections to remote server"),
        (DeliveryError::Io("disk full".to_string()), "Queue error: disk full"),
    ];
    for (error, text) in cases {
        assert_eq!(error.describe(), text);
    }
}

#[test]
fn timestamp_reads_dates_that_are_not_past() {
    assert_eq!(Timestamp::from_str("2023-11-14T22:13:20Z", 1_700_000_000), Ok(Timestamp(1_700_000_000)));
    assert_eq!(Timestamp::from_str("2023-11-14T22:13:20Z", 1_700_000_001), Err(()));
    assert_eq!(Timestamp::from_str("2023-11-15T00:13:20+02:00", 0), Ok(Timestamp(1_700_000_000)));
    assert_eq!(Timestamp::from_str("1970-01-01T00:00:00Z", 0), Ok(Timestamp(0)));
    assert_eq!(Timestamp::from_str("not a date", 0), Err(()));
    assert_eq!(Timestamp::from_str("", 0), Err(()));
    assert_eq!(Timestamp(99).into_inner(), 99);
}

#[test]
fn timestamp_decides_on_a_parsed_date() {
    assert_eq!(Timestamp::from_date(Some(date(1970, 1, 2, 0, 0, 0)), 86_400), Ok(Timestamp(86_400)));
    assert_eq!(Timestamp::from_date(Some(date(1970, 1, 2, 0, 0, 0)), 86_401), Err(()));
    assert_eq!(Timestamp::from_date(None, 0), Err(()));
}

#[test]
fn zero_priority_is_recognised() {
    assert!(is_zero(&0));
    assert!(!is_zero(&1));
    assert!(!is_zero(&-1));
}

#[test]
fn reports_carry_their_header() {
    let event = ReportEvent { due: 946_684_800, policy_hash: 9, seq_id: 86_400, domain: "example.org".to_string() };
    match Report::dmarc(event.clone(), "body", vec!["mailto:a@example.org"]) {
        Report::Dmarc { id, domain, range_from, range_to, report, rua } => {
            assert_eq!(id, "d!example.org!9!86400!946684800");
            assert_eq!(domain, "example.org");
            assert_eq!(range_from, date(1970, 1, 2, 0, 0, 0));
            assert_eq!(range_to, date(2000, 1, 1, 0, 0, 0));
            assert_eq!(report, "body");
            assert_eq!(rua, vec!["mailto:a@example.org"]);
        }
        other => panic!("unexpected {other:?}"),
    }
    match Report::tls(event, 5u8, Vec::<u8>::new()) {
        Report::Tls { id, domain, range_from, range_to, report, rua } => {
            assert_eq!(id, "t!example.org!9!86400!946684800");
            assert_eq!(domain, "example.org");
            assert_eq!(range_from, date(1970, 1, 2, 0, 0, 0));
            assert_eq!(range_to, date(2000, 1, 1, 0, 0, 0));
            assert_eq!(report, 5);
            assert!(rua.is_empty());
        }
        other => panic!("unexpected {other:?}"),
    }
}

fn filter<'a>() -> MessageFilter<'a> {
    MessageFilter { text: None, from: None, to: None, before: None, after: None }
}

fn queued(id: u64, from: &str, to: &str, due: u64) -> queue::Message {
    let mut m = sample();
    m.id = id;
    m.return_path = from.to_string();
    m.recipients.truncate(1);
    m.recipients[0].address = to.to_string();
    m.recipients[0].domain_idx = 0;
    m.domains.truncate(1);
    m.domains[0].status = Status::Scheduled;
    m.domains[0].retry.due = due;
    m
}

#[test]
fn message_filter_looks_at_parties_and_times() {
    let m = queued(1, "alice@origin.org", "bob@target.net", 500);
    assert!(filter().matches(&m, 0));
    assert!(MessageFilter { text: Some("alice"), ..filter() }.matches(&m, 0));
    assert!(MessageFilter { text: Some("bob"), ..filter() }.matches(&m, 0));
    assert!(!MessageFilter { text: Some("carol"), ..filter() }.matches(&m, 0));
    assert!(MessageFilter { text: Some("bob"), from: Some("carol"), ..filter() }.matches(&m, 0));
    assert!(MessageFilter { from: Some("origin"), to: Some("target"), ..filter() }.matches(&m, 0));
    assert!(!MessageFilter { from: Some("target"), ..filter() }.matches(&m, 0));
    assert!(!MessageFilter { to: Some("origin"), ..filter() }.matches(&m, 0));
    assert!(MessageFilter { before: Some(501), ..filter() }.matches(&m, 0));
    assert!(!MessageFilter { before: Some(500), ..filter() }.matches(&m, 0));
    assert!(MessageFilter { after: Some(499), ..filter() }.matches(&m, 0));
    assert!(!MessageFilter { after: Some(500), ..filter() }.matches(&m, 0));
    assert!(!MessageFilter { text: Some("carol"), before: Some(501), ..filter() }.matches(&m, 0));
}

#[test]
fn message_listing_pages_over_the_matches() {
    let queue: Vec<_> = (0..7)
        .map(|n| queued(100 + n, if n % 2 == 0 { "even@origin.org" } else { "odd@origin.org" }, "x@y.z", n))
        .collect();
    let even = MessageFilter { from: Some("even"), ..filter() };
    let page = list_message_ids(&queue, &even, 1, 3, 0);
    assert_eq!(page.total, 4);
    assert_eq!(page.items, vec![100, 102, 104]);
    let page = list_message_ids(&queue, &even, 2, 3, 0);
    assert_eq!(page.total, 4);
    assert_eq!(page.items, vec![106]);
    let all = list_message_ids(&queue, &filter(), 0, 0, 0);
    assert_eq!(all.total, 7);
    assert_eq!(all.items, vec![100, 101, 102, 103, 104, 105, 106]);
    let shown = list_messages(&queue, &even, 2, 3, 0);
    assert_eq!(shown.total, 4);
    assert_eq!(shown.items.len(), 1);
    assert_eq!(shown.items[0], Message::from(&queue[6], 0));
}

#[test]
fn timestamp_accepts_moments_that_are_not_past() {
    assert_eq!(Timestamp::at(100, 100), Ok(Timestamp(100)));
    assert_eq!(Timestamp::at(100, 101), Err(()));
    assert_eq!(Timestamp::at(0, 0), Ok(Timestamp(0)));
    assert_eq!(Timestamp::at(i64::MAX, 0), Ok(Timestamp(i64::MAX as u64)));
    assert_eq!(Timestamp::at(i64::MAX, i64::MAX as u64), Ok(Timestamp(i64::MAX as u64)));
    assert_eq!(Timestamp::at(i64::MAX, i64::MAX as u64 + 1), Err(()));
    assert_eq!(Timestamp::at(i64::MAX, u64::MAX), Err(()));
}

#[test]
fn timestamp_refuses_moments_before_the_epoch() {
    for now in [0u64, 1, 1_700_000_000, 1 << 63, u64::MAX] {
        assert_eq!(Timestamp::at(-1, now), Err(()));
        assert_eq!(Timestamp::at(i64::MIN, now), Err(()));
        assert_eq!(Timestamp::from_str("1969-12-31T23:59:59Z", now), Err(()));
        assert_eq!(Timestamp::from_str("1900-01-01T00:00:00Z", now), Err(()));
    }
    assert_eq!(Timestamp::from_date(Some(date(1969, 12, 31, 23, 59, 59)), 0), Err(()));
    assert_eq!(Timestamp::from_date(Some(date(1970, 1, 1, 0, 0, 0)), 0), Ok(Timestamp(0)));
}

#[test]
fn shown_seconds_keep_their_bits() {
    for (signed, unsigned) in [
        (0i64, 0u64),
        (1, 1),
        (i64::MAX, i64::MAX as u64),
        (-1, u64::MAX),
        (-2, u64::MAX - 1),
        (i64::MIN, 1 << 63),
        (i64::MIN + 1, (1 << 63) + 1),
    ] {
        assert_eq!(mta_queue::datetime::to_signed(unsigned), signed);
        assert_eq!(mta_queue::datetime::to_signed(unsigned), unsigned as i64);
    }
}
