use mta_queue::codec::{
    decode_event_key, decode_message_key, decode_report_key, encode_event_key, encode_message_key,
    encode_report_key,
};
use mta_queue::error::QueueError;
use mta_queue::report::{QueueClass, QueueEvent, ReportClass, ReportEvent};
use mta_queue::{Deserialize, Error, Serialize};

fn event(domain: &str, policy_hash: u64, seq_id: u64, due: u64) -> ReportEvent {
    ReportEvent { due, policy_hash, seq_id, domain: domain.to_string() }
}

#[test]
fn message_key_is_class_and_big_endian_id() {
    assert_eq!(encode_message_key(0), vec![2, 0, 0, 0, 0, 0, 0, 0, 0]);
    assert_eq!(encode_message_key(0x0102030405060708), vec![2, 1, 2, 3, 4, 5, 6, 7, 8]);
    assert_eq!(encode_message_key(u64::MAX), vec![2, 255, 255, 255, 255, 255, 255, 255, 255]);
}

#[test]
fn message_key_round_trips_and_sorts_by_id() {
    let ids = [0u64, 1, 255, 256, 65535, 1 << 32, (1 << 56) + 1, u64::MAX - 1, u64::MAX];
    for a in ids {
        assert_eq!(decode_message_key(&encode_message_key(a)), Ok(a));
        for b in ids {
            assert_eq!(encode_message_key(a) < encode_message_key(b), a < b);
        }
    }
}

#[test]
fn message_key_of_other_shape_is_corrupt() {
    for key in [vec![], vec![2], vec![2, 0, 0, 0, 0, 0, 0, 0], vec![3, 0, 0, 0, 0, 0, 0, 0, 0], vec![2; 10]] {
        assert_eq!(decode_message_key(&key), Err(QueueError::CorruptRecord));
    }
}

#[test]
fn event_key_round_trips_and_sorts_by_due_then_id() {
    let key = encode_event_key(&QueueEvent { due: 258, queue_id: 3 });
    assert_eq!(key, vec![3, 0, 0, 0, 0, 0, 0, 1, 2, 0, 0, 0, 0, 0, 0, 0, 3]);
    let events = [(0u64, 0u64), (0, 9), (1, 0), (1, 256), (255, 1), (256, 0), (u64::MAX, u64::MAX)];
    for (d1, i1) in events {
        let k1 = encode_event_key(&QueueEvent { due: d1, queue_id: i1 });
        assert_eq!(decode_event_key(&k1), Ok(QueueEvent { due: d1, queue_id: i1 }));
        for (d2, i2) in events {
            let k2 = encode_event_key(&QueueEvent { due: d2, queue_id: i2 });
            assert_eq!(k1 < k2, (d1, i1) < (d2, i2));
        }
    }
    assert_eq!(decode_event_key(&[3u8; 16]), Err(QueueError::CorruptRecord));
    assert_eq!(decode_event_key(&[2u8; 17]), Err(QueueError::CorruptRecord));
}

#[test]
fn report_key_lays_out_the_fields() {
    let key = encode_report_key(ReportClass::Tls, &event("ab", 1, 2, 3));
    let mut expected = vec![1u8, b'a', b'b'];
    expected.extend_from_slice(&1u64.to_be_bytes());
    expected.extend_from_slice(&2u64.to_be_bytes());
    expected.extend_from_slice(&3u64.to_be_bytes());
    assert_eq!(key, expected);
    assert_eq!(encode_report_key(ReportClass::Dmarc, &event("", 0, 0, 0)), vec![0u8; 25]);
}

#[test]
fn report_key_round_trips() {
    for e in [
        event("example.org", 12345, 0, 1_700_000_000),
        event("", 0, 0, 0),
        event("ünï!code.example", u64::MAX, 1, u64::MAX),
    ] {
        for class in [ReportClass::Dmarc, ReportClass::Tls] {
            let key = encode_report_key(class, &e);
            assert_eq!(decode_report_key(&key), Ok((class, e.clone())));
            assert_eq!(ReportEvent::deserialize(&key).unwrap(), e);
        }
    }
}

#[test]
fn report_keys_of_distinct_records_differ() {
    let records = [
        (ReportClass::Dmarc, event("a", 1, 2, 3)),
        (ReportClass::Tls, event("a", 1, 2, 3)),
        (ReportClass::Dmarc, event("b", 1, 2, 3)),
        (ReportClass::Dmarc, event("a", 2, 2, 3)),
        (ReportClass::Dmarc, event("a", 1, 3, 3)),
        (ReportClass::Dmarc, event("a", 1, 2, 4)),
        (ReportClass::Dmarc, event("a\u{0}", 1, 2, 3)),
    ];
    for (i, (c1, e1)) in records.iter().enumerate() {
        for (j, (c2, e2)) in records.iter().enumerate() {
            assert_eq!(encode_report_key(*c1, e1) == encode_report_key(*c2, e2), i == j);
        }
    }
}

#[test]
fn report_header_sorts_before_its_entries() {
    let header = encode_report_key(ReportClass::Dmarc, &event("example.org", 77, 0, u64::MAX));
    for (seq_id, due) in [(1u64, 0u64), (2, 5), (u64::MAX, u64::MAX)] {
        let entry = encode_report_key(ReportClass::Dmarc, &event("example.org", 77, seq_id, due));
        assert!(header < entry);
    }
    let a = encode_report_key(ReportClass::Tls, &event("example.org", 77, 4, 9));
    let b = encode_report_key(ReportClass::Tls, &event("example.org", 77, 4, 10));
    assert!(a < b);
}

#[test]
fn report_key_of_other_shape_is_corrupt() {
    assert_eq!(decode_report_key(&[0u8; 24]), Err(QueueError::CorruptRecord));
    assert_eq!(decode_report_key(&[2u8; 25]), Err(QueueError::CorruptRecord));
    let mut bad_text = vec![0u8, 0xff];
    bad_text.extend_from_slice(&[0u8; 24]);
    assert_eq!(decode_report_key(&bad_text), Err(QueueError::CorruptRecord));
    match ReportEvent::deserialize(&bad_text) {
        Err(Error::InternalError(_)) => {}
        other => panic!("unexpected {other:?}"),
    }
}

#[test]
fn queue_classes_serialize_to_their_keys() {
    assert_eq!(QueueClass::Message(9).serialize(), encode_message_key(9));
    assert_eq!(
        QueueClass::MessageEvent(QueueEvent { due: 4, queue_id: 9 }).serialize(),
        encode_event_key(&QueueEvent { due: 4, queue_id: 9 })
    );
    let e = event("example.org", 1, 2, 3);
    assert_eq!(
        QueueClass::DmarcReportHeader(e.clone()).serialize(),
        encode_report_key(ReportClass::Dmarc, &e)
    );
    assert_eq!(QueueClass::TlsReportHeader(e.clone()).serialize(), encode_report_key(ReportClass::Tls, &e));
}
