use mta_queue::management::list::{class_named, list_reports, ReportFilter};
use mta_queue::paging::{paginate, Pager};
use mta_queue::report::{ReportClass, ReportEvent};

fn header(class: ReportClass, domain: &str, n: u64) -> (ReportClass, ReportEvent) {
    (class, ReportEvent { due: 1000 + n, policy_hash: n, seq_id: 0, domain: domain.to_string() })
}

#[test]
fn listing_fifteen_headers_ten_to_a_page() {
    let mut records = Vec::new();
    for n in 0..15 {
        records.push(header(ReportClass::Dmarc, "example.org", n));
        records.push(header(ReportClass::Tls, "example.org", n));
    }
    let filter = ReportFilter { domain: None, class: class_named("dmarc") };
    let first = list_reports(&records, &filter, 1, 10);
    assert_eq!(first.total, 15);
    assert_eq!(first.items.len(), 10);
    assert_eq!(first.items[0], "d!example.org!0!0!1000");
    assert_eq!(first.items[9], "d!example.org!9!0!1009");
    let second = list_reports(&records, &filter, 2, 10);
    assert_eq!(second.total, 15);
    assert_eq!(second.items.len(), 5);
    assert_eq!(second.items[0], "d!example.org!10!0!1010");
    let third = list_reports(&records, &filter, 3, 10);
    assert_eq!(third.total, 15);
    assert!(third.items.is_empty());
}

#[test]
fn listing_without_limit_returns_everything() {
    let records: Vec<_> = (0..4).map(|n| header(ReportClass::Tls, "example.org", n)).collect();
    let filter = ReportFilter { domain: None, class: None };
    for page in [0, 1, 2, 9] {
        let all = list_reports(&records, &filter, page, 0);
        assert_eq!(all.total, 4);
        assert_eq!(all.items.len(), 4);
    }
    let beyond = list_reports(&records, &filter, usize::MAX, usize::MAX);
    assert_eq!(beyond.total, 4);
    assert!(beyond.items.is_empty());
}

#[test]
fn listing_shows_headers_only() {
    let mut records = vec![header(ReportClass::Dmarc, "example.org", 1)];
    records.push((
        ReportClass::Dmarc,
        ReportEvent { due: 1001, policy_hash: 1, seq_id: 5, domain: "example.org".to_string() },
    ));
    let page = list_reports(&records, &ReportFilter { domain: None, class: None }, 1, 10);
    assert_eq!(page.total, 1);
    assert_eq!(page.items, vec!["d!example.org!1!0!1001".to_string()]);
}

#[test]
fn listing_filters_by_domain_and_class() {
    let records = vec![
        header(ReportClass::Dmarc, "example.org", 1),
        header(ReportClass::Tls, "example.org", 2),
        header(ReportClass::Tls, "other.net", 3),
    ];
    let by_domain = ReportFilter { domain: Some("other"), class: None };
    assert_eq!(list_reports(&records, &by_domain, 1, 10).items, vec!["t!other.net!3!0!1003".to_string()]);
    let by_class = ReportFilter { domain: Some("example"), class: Some(ReportClass::Tls) };
    assert_eq!(list_reports(&records, &by_class, 1, 10).items, vec!["t!example.org!2!0!1002".to_string()]);
    assert!(by_class.matches(ReportClass::Tls, &records[1].1));
    assert!(!by_class.matches(ReportClass::Dmarc, &records[0].1));
}

#[test]
fn class_names_are_exact() {
    assert_eq!(class_named("dmarc"), Some(ReportClass::Dmarc));
    assert_eq!(class_named("tls"), Some(ReportClass::Tls));
    for other in ["", "DMARC", "dmarc ", "tlsa", "d", "t"] {
        assert_eq!(class_named(other), None);
    }
}

#[test]
fn pager_counts_every_match_and_takes_the_page() {
    let mut pager = Pager::new(2, 3);
    let mut taken = Vec::new();
    for n in 0..8 {
        if pager.offer() {
            taken.push(n);
        }
    }
    assert_eq!(taken, vec![3, 4, 5]);
    assert_eq!(pager.total, 8);
    assert_eq!(pager.returned, 3);
}

#[test]
fn pager_page_zero_is_the_first_page() {
    assert_eq!(Pager::new(0, 5), Pager::new(1, 5));
    assert_eq!(Pager::new(1, 5).skip, 0);
    assert_eq!(Pager::new(4, 5).skip, 15);
    assert_eq!(Pager::checked(3, 7), Some(Pager::new(3, 7)));
    assert_eq!(Pager::checked(usize::MAX, 2), None);
    assert_eq!(Pager::checked(usize::MAX, 0).map(|p| p.skip), Some(0));
}

#[test]
fn paginate_cuts_a_list() {
    let items: Vec<u32> = (0..15).collect();
    assert_eq!(paginate(items.clone(), 1, 10), ((0..10).collect(), 15));
    assert_eq!(paginate(items.clone(), 2, 10), ((10..15).collect(), 15));
    assert_eq!(paginate(items.clone(), 3, 10), (vec![], 15));
    assert_eq!(paginate(items.clone(), 0, 0), ((0..15).collect(), 15));
    assert_eq!(paginate(items.clone(), 2, 15), (vec![], 15));
    assert_eq!(paginate(items, 4, 4), ((12..15).collect(), 15));
    assert_eq!(paginate(Vec::<u32>::new(), 1, 10), (vec![], 0));
}
