use mta_queue::queue::{DeliveryError, Domain, Message, Recipient, Schedule};
use mta_queue::scheduler::{plan, settle, sleep_for, wake_after_pass, Step};
use mta_queue::status::Status;

fn domain(due: u64, notify: u64, expires: u64) -> Domain {
    Domain {
        domain: "example.org".to_string(),
        retry: Schedule { due, inner: 0 },
        notify: Schedule { due: notify, inner: 0 },
        expires,
        status: Status::Scheduled,
    }
}

fn message(id: u64, domains: Vec<Domain>) -> Message {
    Message {
        id,
        created: 0,
        return_path: String::new(),
        recipients: vec![Recipient {
            domain_idx: 0,
            address: "a@example.org".to_string(),
            status: Status::Scheduled,
            orcpt: None,
        }],
        domains,
        size: 0,
        priority: 0,
        env_id: None,
    }
}

#[test]
fn domain_event_is_the_retry_time() {
    assert_eq!(domain(100, 500, 1000).next_event(), Some(100));
}

#[test]
fn domain_event_is_capped_by_the_deadline() {
    assert_eq!(domain(2000, 5000, 1000).next_event(), Some(1000));
}

#[test]
fn domain_event_is_the_notice_when_it_comes_first() {
    assert_eq!(domain(800, 500, 1000).next_event(), Some(500));
    let mut sent = domain(800, 500, 1000);
    sent.notify.inner = 1;
    assert_eq!(sent.next_event(), Some(800));
    assert_eq!(domain(800, 1000, 1000).next_event(), Some(800));
}

#[test]
fn domain_in_end_state_has_no_event() {
    let mut d = domain(100, 500, 1000);
    d.status = Status::Completed(());
    assert_eq!(d.next_event(), None);
    d.status = Status::PermanentFailure(DeliveryError::RateLimited);
    assert_eq!(d.next_event(), None);
    d.status = Status::TemporaryFailure(DeliveryError::RateLimited);
    assert_eq!(d.next_event(), Some(100));
}

#[test]
fn message_event_is_the_earliest_domain_event() {
    let mut done = domain(5, 5, 5);
    done.status = Status::Completed(());
    let m = message(1, vec![domain(300, 900, 1000), done, domain(200, 900, 1000)]);
    assert_eq!(m.next_event(), Some(200));
    assert!(m.has_pending());
    let mut all_done = m.clone();
    for d in all_done.domains.iter_mut() {
        d.status = Status::Completed(());
    }
    assert_eq!(all_done.next_event(), None);
    assert!(!all_done.has_pending());
    assert_eq!(message(2, vec![]).next_event(), None);
}

#[test]
fn next_delivery_event_ignores_notices_and_deadlines() {
    let m = message(1, vec![domain(300, 10, 20), domain(200, 10, 20)]);
    assert_eq!(m.next_delivery_event(77), 200);
    assert_eq!(message(2, vec![]).next_delivery_event(77), 77);
    let mut done = domain(5, 5, 5);
    done.status = Status::Completed(());
    assert_eq!(message(3, vec![done, domain(900, 1, 2)]).next_delivery_event(77), 900);
}

#[test]
fn expiry_turns_temporary_failure_permanent() {
    for attempts in [0u32, 1, 1000, u32::MAX] {
        let mut d = domain(100, u64::MAX, 1000);
        d.retry.inner = attempts;
        d.status = Status::TemporaryFailure(DeliveryError::Io("disk".to_string()));
        let mut m = message(1, vec![d]);
        assert!(!m.expire(999));
        assert_eq!(m.domains[0].status, Status::TemporaryFailure(DeliveryError::Io("disk".to_string())));
        assert!(m.expire(1000));
        assert_eq!(m.domains[0].status, Status::PermanentFailure(DeliveryError::Io("disk".to_string())));
        assert_eq!(m.domains[0].retry.inner, attempts);
        assert!(!m.expire(5000));
    }
}

#[test]
fn expiry_leaves_other_states_alone() {
    let mut completed = domain(1, 1, 1);
    completed.status = Status::Completed(());
    let mut m = message(1, vec![domain(1, 1, 1), completed]);
    let before = m.clone();
    assert!(!m.expire(u64::MAX));
    assert_eq!(m, before);
}

#[test]
fn pass_removes_a_message_without_pending_domains() {
    let mut d = domain(100, u64::MAX, 1000);
    d.status = Status::TemporaryFailure(DeliveryError::RateLimited);
    let mut m = message(1, vec![d]);
    assert_eq!(m.pass(1000), Step::Remove);
    assert_eq!(m.domains[0].status, Status::PermanentFailure(DeliveryError::RateLimited));
}

#[test]
fn pass_delivers_when_a_retry_is_due() {
    let mut m = message(1, vec![domain(100, u64::MAX, 1000), domain(500, u64::MAX, 1000)]);
    assert_eq!(m.pass(99), Step::Wait { until: 100 });
    assert_eq!(m.pass(100), Step::Deliver);
    assert_eq!(m.pass(700), Step::Deliver);
}

#[test]
fn pass_notifies_when_only_a_notice_is_due() {
    let mut m = message(1, vec![domain(500, 200, 1000)]);
    assert_eq!(m.pass(100), Step::Wait { until: 200 });
    assert_eq!(m.pass(200), Step::Notify);
    m.mark_notified(200);
    assert_eq!(m.domains[0].notify.inner, 1);
    assert_eq!(m.pass(200), Step::Wait { until: 500 });
    assert_eq!(m.pass(500), Step::Deliver);
}

#[test]
fn plan_splits_due_messages_from_the_next_wake() {
    let mut done = domain(1, 1, 1);
    done.status = Status::Completed(());
    let queue = vec![
        message(10, vec![domain(100, u64::MAX, 1000)]),
        message(11, vec![domain(300, u64::MAX, 1000)]),
        message(12, vec![done]),
        message(13, vec![domain(50, u64::MAX, 1000)]),
        message(14, vec![domain(250, u64::MAX, 1000)]),
    ];
    let p = plan(&queue, 100);
    assert_eq!(p.due, vec![10, 13]);
    assert_eq!(p.wake, Some(250));
    let p = plan(&queue, 1000);
    assert_eq!(p.due, vec![10, 11, 13, 14]);
    assert_eq!(p.wake, None);
    let p = plan(&Vec::new(), 5);
    assert!(p.due.is_empty());
    assert_eq!(p.wake, None);
}

#[test]
fn sleep_lasts_until_the_wake_time() {
    assert_eq!(sleep_for(Some(250), 100), Some(150));
    assert_eq!(sleep_for(Some(100), 100), Some(0));
    assert_eq!(sleep_for(Some(5), 100), Some(0));
    assert_eq!(sleep_for(None, 100), None);
}

#[test]
fn well_formed_messages_name_their_domains() {
    let mut m = message(1, vec![domain(1, 1, 1)]);
    assert!(m.is_wf());
    m.recipients[0].domain_idx = 1;
    assert!(!m.is_wf());
}

#[test]
fn failed_attempt_leaves_the_record_alone() {
    let before = message(1, vec![domain(100, u64::MAX, 1000)]);
    assert_eq!(settle::<()>(before.clone(), Err(())), before);
    let mut delivered = before.clone();
    delivered.recipients[0].status = Status::PermanentFailure(mta_queue::queue::HostResponse {
        hostname: mta_queue::queue::ErrorDetails { entity: "mx".to_string(), details: String::new() },
        response: mta_queue::queue::Response { code: 550, esc: [5, 1, 1], message: "No".to_string() },
    });
    let after = settle::<()>(before, Ok(delivered.clone()));
    assert_eq!(after.recipients, delivered.recipients);
    assert_eq!(after.domains[0].status, Status::Completed(()));
}

#[test]
fn statuses_follow_the_state_machine() {
    let scheduled: Status<(), ()> = Status::Scheduled;
    let completed: Status<(), ()> = Status::Completed(());
    let temporary: Status<(), ()> = Status::TemporaryFailure(());
    let permanent: Status<(), ()> = Status::PermanentFailure(());
    for next in [&scheduled, &completed, &temporary, &permanent] {
        assert!(scheduled.can_become(next));
    }
    assert!(!temporary.can_become(&scheduled));
    assert!(temporary.can_become(&completed));
    assert!(temporary.can_become(&temporary));
    assert!(temporary.can_become(&permanent));
    assert!(completed.can_become(&completed));
    assert!(!completed.can_become(&scheduled));
    assert!(!completed.can_become(&temporary));
    assert!(!completed.can_become(&permanent));
    assert!(permanent.can_become(&permanent));
    assert!(!permanent.can_become(&scheduled));
    assert!(!permanent.can_become(&temporary));
    assert!(!permanent.can_become(&completed));
}

#[test]
fn delivery_outcome_outside_the_state_machine_is_ignored() {
    let mut done = domain(100, u64::MAX, 1000);
    done.status = Status::Completed(());
    let mut before = message(1, vec![done, domain(100, u64::MAX, 1000)]);
    before.recipients.push(Recipient {
        domain_idx: 1,
        address: "b@example.org".to_string(),
        status: Status::Scheduled,
        orcpt: None,
    });
    let mut reopened = before.clone();
    reopened.domains[0].status = Status::Scheduled;
    assert!(!before.accepts(&reopened));
    assert_eq!(settle::<()>(before.clone(), Ok(reopened)), before);
    let mut other = before.clone();
    other.id = 2;
    assert!(!before.accepts(&other));
    let mut shorter = before.clone();
    shorter.domains.pop();
    assert!(!before.accepts(&shorter));
    let mut moved = before.clone();
    moved.recipients[0].domain_idx = 1;
    assert!(!before.accepts(&moved));
    let mut failed = before.clone();
    failed.domains[1].status = Status::TemporaryFailure(DeliveryError::RateLimited);
    failed.domains[1].retry = Schedule { due: 700, inner: 1 };
    assert!(before.accepts(&failed));
    assert_eq!(settle::<()>(before, Ok(failed.clone())), failed);
}

#[test]
fn wake_after_a_pass_comes_soon_while_something_is_due() {
    let mut done = domain(1, 1, 1);
    done.status = Status::Completed(());
    let queue = vec![
        message(10, vec![domain(100, u64::MAX, 1000)]),
        message(11, vec![done]),
        message(12, vec![domain(300, u64::MAX, 1000)]),
    ];
    assert_eq!(wake_after_pass(&queue, 50), Some(100));
    assert_eq!(wake_after_pass(&queue, 100), Some(101));
    assert_eq!(wake_after_pass(&queue, 299), Some(300));
    assert_eq!(wake_after_pass(&queue, u64::MAX), Some(u64::MAX));
    assert_eq!(wake_after_pass(&queue[1..2].to_vec(), 5), None);
    assert_eq!(wake_after_pass(&Vec::new(), 5), None);
}
