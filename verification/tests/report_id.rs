use mta_queue::decimal::{format_u64, parse_u64};
use mta_queue::error::QueueError;
use mta_queue::registry::{located, request, ReportCall, ReportOp};
use mta_queue::report::{parse_queued_report_id, QueueClass, ReportEvent};

fn event(domain: &str, policy_hash: u64, seq_id: u64, due: u64) -> ReportEvent {
    ReportEvent { due, policy_hash, seq_id, domain: domain.to_string() }
}

fn number(text: &str) -> Option<u64> {
    let chars: Vec<char> = text.chars().collect();
    parse_u64(&chars, 0, chars.len())
}

#[test]
fn report_id_has_the_documented_form() {
    let id = QueueClass::DmarcReportHeader(event("example.org", 12345, 0, 1_700_000_000)).queue_id();
    assert_eq!(id, "d!example.org!12345!0!1700000000");
    let id = QueueClass::TlsReportHeader(event("mx.example.org", 0, 7, u64::MAX)).queue_id();
    assert_eq!(id, "t!mx.example.org!0!7!18446744073709551615");
}

#[test]
fn report_id_round_trips() {
    for e in [
        event("example.org", 12345, 0, 1_700_000_000),
        event("", 0, 0, 0),
        event("ünï.example", u64::MAX, u64::MAX, u64::MAX),
        event("a b+c", 10, 100, 1000),
    ] {
        let dmarc = QueueClass::DmarcReportHeader(e.clone());
        assert_eq!(parse_queued_report_id(&dmarc.queue_id()), Some(dmarc));
        let tls = QueueClass::TlsReportHeader(e);
        assert_eq!(parse_queued_report_id(&tls.queue_id()), Some(tls));
    }
}

#[test]
fn report_ids_of_distinct_events_differ() {
    let events = [
        event("example.org", 1, 2, 3),
        event("example.org", 1, 2, 4),
        event("example.org", 1, 3, 3),
        event("example.org", 2, 2, 3),
        event("example.com", 1, 2, 3),
        event("example.org", 12, 3, 3),
        event("example.org", 1, 23, 3),
        event("example.org!1", 2, 3, 4),
        event("example.org!1!2", 3, 4, 5),
        event("!", 1, 2, 3),
        event("", 1, 2, 3),
    ];
    let mut ids = Vec::new();
    for e in events {
        ids.push(QueueClass::DmarcReportHeader(e.clone()).queue_id());
        ids.push(QueueClass::TlsReportHeader(e).queue_id());
    }
    for i in 0..ids.len() {
        for j in 0..ids.len() {
            assert_eq!(ids[i] == ids[j], i == j);
        }
    }
}

#[test]
fn report_id_with_missing_fields_names_nothing() {
    for id in ["", "d", "d!example.org", "d!example.org!1", "d!example.org!1!2", "!!!!", "d!!!!"] {
        assert_eq!(parse_queued_report_id(id), None, "{id:?}");
    }
}

#[test]
fn report_id_with_bad_numbers_names_nothing() {
    for id in [
        "d!example.org!x!2!3",
        "d!example.org!1!!3",
        "d!example.org!1!2!3x",
        "d!example.org!1!2!-3",
        "d!example.org!1!2! 3",
        "d!example.org!1!2!18446744073709551616",
        "d!example.org!1!2!+",
    ] {
        assert_eq!(parse_queued_report_id(id), None, "{id:?}");
    }
}

#[test]
fn report_id_with_unknown_class_names_nothing() {
    for id in ["x!example.org!1!2!3", "dd!example.org!1!2!3", "!example.org!1!2!3", "D!example.org!1!2!3"] {
        assert_eq!(parse_queued_report_id(id), None, "{id:?}");
    }
}

#[test]
fn report_id_reads_like_the_standard_number_parser() {
    assert_eq!(
        parse_queued_report_id("t!example.org!+1!007!3!ignored!too"),
        Some(QueueClass::TlsReportHeader(event("example.org", 1, 7, 3)))
    );
    assert_eq!(
        parse_queued_report_id("d!!0!0!0"),
        Some(QueueClass::DmarcReportHeader(event("", 0, 0, 0)))
    );
}

#[test]
fn report_id_of_a_domain_with_delimiter_does_not_round_trip() {
    let odd = QueueClass::DmarcReportHeader(event("a!b", 1, 2, 3));
    assert_eq!(odd.queue_id(), "d!a!b!1!2!3");
    assert_eq!(parse_queued_report_id(&odd.queue_id()), None);
}

#[test]
fn decimal_notation_matches_the_standard_library() {
    for n in [0u64, 1, 9, 10, 11, 99, 100, 12345, 1_700_000_000, u64::MAX - 1, u64::MAX] {
        assert_eq!(format_u64(n), n.to_string());
        assert_eq!(number(&n.to_string()), Some(n));
    }
}

#[test]
fn number_parser_matches_the_standard_library() {
    for text in [
        "", "+", "-", "0", "+0", "-0", "00", "007", "+007", "++1", "1+", "1 ", " 1", "1_000",
        "18446744073709551615", "18446744073709551616", "99999999999999999999",
        "000000000000000000000000018446744073709551615", "٣", "1٣", "a", "0x10",
    ] {
        assert_eq!(number(text), text.parse::<u64>().ok(), "{text:?}");
    }
}

#[test]
fn number_parser_reads_a_window() {
    let chars: Vec<char> = "ab123cd".chars().collect();
    assert_eq!(parse_u64(&chars, 2, 5), Some(123));
    assert_eq!(parse_u64(&chars, 2, 6), None);
    assert_eq!(parse_u64(&chars, 3, 3), None);
}

#[test]
fn report_requests_pick_the_collaborator_call() {
    let e = event("example.org", 1, 0, 3);
    assert_eq!(request(ReportOp::Locate, "d!example.org!1!0!3"), Ok(ReportCall::GenerateDmarc(e.clone())));
    assert_eq!(request(ReportOp::Delete, "d!example.org!1!0!3"), Ok(ReportCall::DeleteDmarc(e.clone())));
    assert_eq!(request(ReportOp::Locate, "t!example.org!1!0!3"), Ok(ReportCall::GenerateTls(vec![e.clone()])));
    assert_eq!(request(ReportOp::Delete, "t!example.org!1!0!3"), Ok(ReportCall::DeleteTls(vec![e])));
    assert_eq!(request(ReportOp::Locate, "bogus"), Err(QueueError::BadInput));
    assert_eq!(request(ReportOp::Delete, "d!example.org!1!0"), Err(QueueError::BadInput));
}

#[test]
fn located_reports_map_to_results() {
    assert_eq!(located::<u8, ()>(Ok(Some(5))), Ok(5));
    assert_eq!(located::<u8, ()>(Ok(None)), Err(QueueError::NotFound));
    assert_eq!(located::<u8, ()>(Err(())), Err(QueueError::StorageTransient));
}
