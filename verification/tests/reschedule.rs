use mta_queue::admin::{cancel, requested_time, reschedule, Canceled, Change, Effect};
use mta_queue::datetime::Timestamp;
use mta_queue::error::QueueError;
use mta_queue::queue::{Domain, HostResponse, Message, Recipient, Response, Schedule};
use mta_queue::status::Status;

const T: u64 = 1_700_000_000;

fn domain(name: &str, due: u64, expires: u64) -> Domain {
    Domain {
        domain: name.to_string(),
        retry: Schedule { due, inner: 0 },
        notify: Schedule { due: u64::MAX, inner: 0 },
        expires,
        status: Status::Scheduled,
    }
}

fn recipient(address: &str, domain_idx: usize) -> Recipient {
    Recipient { domain_idx, address: address.to_string(), status: Status::Scheduled, orcpt: None }
}

fn message(domains: Vec<Domain>, recipients: Vec<Recipient>) -> Message {
    Message {
        id: 7,
        created: T - 100,
        return_path: "sender@origin.org".to_string(),
        recipients,
        domains,
        size: 1234,
        priority: 0,
        env_id: None,
    }
}

#[test]
fn reschedule_within_deadline_keeps_deadline() {
    let mut m = message(vec![domain("example.org", T, T + 3600)], vec![recipient("a@example.org", 0)]);
    let change = m.reschedule(T + 60, None);
    assert_eq!(m.domains[0].retry.due, T + 60);
    assert_eq!(m.domains[0].expires, T + 3600);
    assert_eq!(change, Change::Save { prev_event: T, next_event: T + 60 });
    assert!(change.is_changed());
}

#[test]
fn reschedule_past_deadline_moves_deadline() {
    let mut m = message(vec![domain("example.org", T, T + 3600)], vec![recipient("a@example.org", 0)]);
    let change = m.reschedule(T + 7000, None);
    assert_eq!(m.domains[0].retry.due, T + 7000);
    assert_eq!(m.domains[0].expires, T + 7010);
    assert_eq!(change, Change::Save { prev_event: T, next_event: T + 7000 });
}

#[test]
fn reschedule_to_deadline_itself_keeps_deadline() {
    let mut m = message(vec![domain("example.org", T, T + 3600)], vec![]);
    m.reschedule(T + 3600, None);
    assert_eq!(m.domains[0].retry.due, T + 3600);
    assert_eq!(m.domains[0].expires, T + 3600);
}

#[test]
fn reschedule_twice_is_idempotent() {
    for at in [T + 60, T + 3600, T + 7000] {
        let mut m = message(
            vec![domain("example.org", T, T + 3600), domain("other.net", T + 5, T + 20)],
            vec![],
        );
        let first = m.reschedule(at, None);
        let after_first = m.clone();
        let second = m.reschedule(at, None);
        assert_eq!(m, after_first);
        assert!(first.is_changed());
        assert!(second.is_changed());
        assert_eq!(second, Change::Save { prev_event: at, next_event: at });
    }
}

#[test]
fn reschedule_honours_domain_filter() {
    let mut m = message(
        vec![domain("example.org", T, T + 3600), domain("other.net", T + 5, T + 3600)],
        vec![],
    );
    let change = m.reschedule(T + 100, Some("other"));
    assert_eq!(m.domains[0].retry.due, T);
    assert_eq!(m.domains[1].retry.due, T + 100);
    assert_eq!(change, Change::Save { prev_event: T, next_event: T });
    let none = m.reschedule(T + 200, Some("nowhere"));
    assert_eq!(none, Change::Unchanged);
    assert!(!none.is_changed());
    assert_eq!(m.domains[1].retry.due, T + 100);
}

#[test]
fn reschedule_skips_domains_in_end_states() {
    let mut done = domain("done.org", T, T + 3600);
    done.status = Status::Completed(());
    let mut failing = domain("failing.org", T + 1, T + 3600);
    failing.status = Status::TemporaryFailure(mta_queue::queue::DeliveryError::RateLimited);
    let mut m = message(vec![done, failing], vec![]);
    let change = m.reschedule(T + 50, None);
    assert_eq!(m.domains[0].retry.due, T);
    assert_eq!(m.domains[1].retry.due, T + 50);
    assert_eq!(change, Change::Save { prev_event: T + 1, next_event: T + 50 });
}

#[test]
fn reschedule_rejects_time_in_the_past() {
    let m = message(vec![domain("example.org", T, T + 3600)], vec![]);
    assert_eq!(reschedule(Some(m.clone()), T - 1, T, None), Err(QueueError::BadInput));
    assert_eq!(reschedule(None, T - 1, T, None), Err(QueueError::BadInput));
    assert_eq!(reschedule(Some(m), u64::MAX - 9, T, None), Err(QueueError::BadInput));
}

#[test]
fn reschedule_reports_missing_message() {
    assert_eq!(reschedule(None, T, T, None), Err(QueueError::NotFound));
}

#[test]
fn reschedule_returns_the_updated_message() {
    let m = message(vec![domain("example.org", T, T + 3600)], vec![]);
    let (after, change) = reschedule(Some(m), T, T, None).unwrap();
    assert_eq!(after.domains[0].retry.due, T);
    assert_eq!(change, Change::Save { prev_event: T, next_event: T });
    let m = message(vec![domain("example.org", T, T + 3600)], vec![]);
    let (after, change) = reschedule(Some(m), u64::MAX - 10, T, None).unwrap();
    assert_eq!(after.domains[0].retry.due, u64::MAX - 10);
    assert_eq!(after.domains[0].expires, u64::MAX);
    assert_eq!(change, Change::Save { prev_event: T, next_event: u64::MAX - 10 });
}

#[test]
fn cancel_one_recipient_keeps_the_message() {
    let mut m = message(
        vec![domain("example.org", T, T + 3600)],
        vec![recipient("first@example.org", 0), recipient("second@example.org", 0)],
    );
    let out = m.cancel(Some("first"));
    match &m.recipients[0].status {
        Status::PermanentFailure(h) => {
            assert_eq!(h.response.message, "Delivery canceled");
            assert_eq!(h.response.code, 0);
            assert_eq!(h.response.esc, [0, 0, 0]);
            assert_eq!(h.hostname.entity, "");
            assert_eq!(h.hostname.details, "");
        }
        other => panic!("unexpected status {other:?}"),
    }
    assert_eq!(m.recipients[1].status, Status::Scheduled);
    assert_eq!(m.domains[0].status, Status::Scheduled);
    assert_eq!(out, Canceled { matched: true, change: Change::Save { prev_event: T, next_event: T } });
}

#[test]
fn cancel_without_filter_removes_the_message() {
    let mut m = message(
        vec![domain("example.org", T, T + 3600)],
        vec![recipient("first@example.org", 0), recipient("second@example.org", 0)],
    );
    let before = m.clone();
    let out = m.cancel(None);
    assert_eq!(out, Canceled { matched: true, change: Change::Remove { prev_event: T } });
    assert_eq!(m, before);
}

#[test]
fn cancel_every_recipient_completes_and_removes() {
    let mut m = message(
        vec![domain("example.org", T, T + 3600)],
        vec![recipient("first@example.org", 0), recipient("second@example.org", 0)],
    );
    let out = m.cancel(Some("@example.org"));
    assert_eq!(m.domains[0].status, Status::Completed(()));
    assert_eq!(out, Canceled { matched: true, change: Change::Remove { prev_event: T } });
}

#[test]
fn cancel_completes_only_the_finished_domain() {
    let mut m = message(
        vec![domain("one.org", T + 5, T + 3600), domain("two.org", T + 9, T + 3600)],
        vec![recipient("a@one.org", 0), recipient("b@two.org", 1), recipient("c@two.org", 1)],
    );
    let out = m.cancel(Some("one.org"));
    assert_eq!(m.domains[0].status, Status::Completed(()));
    assert_eq!(m.domains[1].status, Status::Scheduled);
    assert_eq!(out, Canceled { matched: true, change: Change::Save { prev_event: T + 5, next_event: T + 9 } });
    assert!(m.has_pending());
}

#[test]
fn cancel_without_match_changes_nothing() {
    let mut m = message(vec![domain("example.org", T, T + 3600)], vec![recipient("a@example.org", 0)]);
    let before = m.clone();
    let out = m.cancel(Some("nobody"));
    assert_eq!(out, Canceled { matched: false, change: Change::Unchanged });
    assert_eq!(m, before);
}

#[test]
fn cancel_reports_missing_message() {
    assert_eq!(cancel(None, Some("x")), Err(QueueError::NotFound));
    assert_eq!(cancel(None, None), Err(QueueError::NotFound));
    let m = message(vec![domain("example.org", T, T + 3600)], vec![recipient("a@example.org", 0)]);
    let (after, out) = cancel(Some(m), Some("a@")).unwrap();
    assert_eq!(out, Canceled { matched: true, change: Change::Remove { prev_event: T } });
    assert_eq!(after.domains[0].status, Status::Completed(()));
}

#[test]
fn aggregate_completes_domains_whose_recipients_are_done() {
    let mut done = recipient("a@one.org", 0);
    done.status = Status::Completed(mta_queue::queue::HostResponse {
        hostname: "mx.one.org".to_string(),
        response: mta_queue::queue::Response { code: 250, esc: [2, 0, 0], message: "OK".to_string() },
    });
    let mut m = message(
        vec![domain("one.org", T, T + 10), domain("two.org", T, T + 10), domain("none.org", T, T + 10)],
        vec![done, recipient("b@two.org", 1)],
    );
    assert!(m.recipients_done(0));
    assert!(!m.recipients_done(1));
    assert!(m.recipients_done(2));
    m.aggregate();
    assert_eq!(m.domains[0].status, Status::Completed(()));
    assert_eq!(m.domains[1].status, Status::Scheduled);
    assert_eq!(m.domains[2].status, Status::Completed(()));
}

#[test]
fn changes_unfold_into_ordered_steps() {
    let save = Change::Save { prev_event: 5, next_event: 9 };
    assert_eq!(save.effects(true), vec![Effect::Unlink { due: 5 }, Effect::Write { due: 9 }, Effect::Reload]);
    assert_eq!(save.effects(false), vec![Effect::Unlink { due: 5 }, Effect::Write { due: 9 }]);
    let remove = Change::Remove { prev_event: 5 };
    assert_eq!(remove.effects(false), vec![Effect::Unlink { due: 5 }, Effect::Delete]);
    assert_eq!(remove.effects(true), vec![Effect::Unlink { due: 5 }, Effect::Delete, Effect::Reload]);
    assert!(Change::Unchanged.effects(true).is_empty());
    assert!(Change::Unchanged.effects(false).is_empty());
}

#[test]
fn record_is_kept_while_a_domain_is_pending() {
    let mut m = message(vec![domain("example.org", T + 3, T + 3600)], vec![]);
    assert_eq!(m.change_from(T), Change::Save { prev_event: T, next_event: T + 3 });
    m.domains[0].status = Status::Completed(());
    assert_eq!(m.change_from(T), Change::Remove { prev_event: T });
}

fn delivered() -> Status<HostResponse<String>, HostResponse<mta_queue::queue::ErrorDetails>> {
    Status::Completed(HostResponse {
        hostname: "mx.example.org".to_string(),
        response: Response { code: 250, esc: [2, 0, 0], message: "OK".to_string() },
    })
}

#[test]
fn cancel_without_match_still_aggregates() {
    let mut done = recipient("a@one.org", 0);
    done.status = delivered();
    let mut m = message(
        vec![domain("one.org", T + 5, T + 3600), domain("two.org", T + 9, T + 3600)],
        vec![done, recipient("b@two.org", 1)],
    );
    let out = m.cancel(Some("nobody"));
    assert_eq!(m.domains[0].status, Status::Completed(()));
    assert_eq!(m.domains[1].status, Status::Scheduled);
    assert_eq!(m.recipients[1].status, Status::Scheduled);
    assert_eq!(out, Canceled { matched: false, change: Change::Save { prev_event: T + 5, next_event: T + 9 } });
}

#[test]
fn cancel_without_match_removes_a_finished_message() {
    let mut done = recipient("a@one.org", 0);
    done.status = delivered();
    let mut m = message(vec![domain("one.org", T + 5, T + 3600)], vec![done]);
    let out = m.cancel(Some("nobody"));
    assert_eq!(m.domains[0].status, Status::Completed(()));
    assert_eq!(out, Canceled { matched: false, change: Change::Remove { prev_event: T + 5 } });
    let again = m.cancel(Some("nobody"));
    assert_eq!(again, Canceled { matched: false, change: Change::Remove { prev_event: 0 } });
}

#[test]
fn aggregate_reports_whether_a_domain_was_completed() {
    let mut m = message(vec![domain("one.org", T, T + 10)], vec![recipient("a@one.org", 0)]);
    assert!(!m.aggregate());
    m.recipients[0].status = delivered();
    assert!(m.aggregate());
    assert!(!m.aggregate());
}

#[test]
fn reschedule_time_is_the_one_asked_for() {
    assert_eq!(requested_time(None, T), Ok(T));
    assert_eq!(requested_time(Some(Ok(Timestamp(T + 5))), T), Ok(T + 5));
    assert_eq!(requested_time(Some(Err(())), T), Err(QueueError::BadInput));
}

#[test]
fn only_changes_with_a_signal_reload() {
    assert!(Change::Save { prev_event: 1, next_event: 2 }.signals(true));
    assert!(Change::Remove { prev_event: 1 }.signals(true));
    assert!(!Change::Unchanged.signals(true));
    assert!(!Change::Save { prev_event: 1, next_event: 2 }.signals(false));
}
