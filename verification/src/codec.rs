//! The persisted key encoding.
//!
//! Every key starts with one byte that names the class of the entry, so
//! that the entries of a class are contiguous in the store. Numbers are
//! written big-endian, so that keys of a class sort as their numbers do.
//!
//! * message: class, id
//! * message event: class, due, id
//! * report record: class (DMARC or TLS), domain, policy hash, sequence
//!   number, due

use crate::error::QueueError;
use crate::report::{QueueClass, QueueEvent, ReportClass, ReportEvent, ReportEventView};
use crate::{Deserialize, Error, Serialize};
use vstd::prelude::*;
use vstd::string::{StringExecFns, StringSliceAdditionalSpecFns};
use vstd::utf8::{decode_utf8, encode_utf8, valid_utf8, encode_utf8_decode_utf8, encode_utf8_valid_utf8};

verus! {

/// Class byte of DMARC report records.
pub const CLASS_DMARC: u8 = 0;

/// Class byte of TLS report records.
pub const CLASS_TLS: u8 = 1;

/// Class byte of message records.
pub const CLASS_MESSAGE: u8 = 2;

/// Class byte of message events.
pub const CLASS_EVENT: u8 = 3;

/// Width of an encoded number.
pub const U64_LEN: usize = 8;

/// The eight bytes of `n`, most significant first.
pub open spec fn be_bytes(n: u64) -> Seq<u8> {
    seq![
        ((n >> 56) & 0xff) as u8,
        ((n >> 48) & 0xff) as u8,
        ((n >> 40) & 0xff) as u8,
        ((n >> 32) & 0xff) as u8,
        ((n >> 24) & 0xff) as u8,
        ((n >> 16) & 0xff) as u8,
        ((n >> 8) & 0xff) as u8,
        (n & 0xff) as u8,
    ]
}

/// The number whose big-endian bytes are the first eight of `b`.
pub open spec fn be_value(b: Seq<u8>) -> u64 {
    (b[0] as u64) << 56 | (b[1] as u64) << 48 | (b[2] as u64) << 40 | (b[3] as u64) << 32 | (
    b[4] as u64) << 24 | (b[5] as u64) << 16 | (b[6] as u64) << 8 | (b[7] as u64)
}

/// The class byte of a report class.
pub open spec fn class_byte(class: ReportClass) -> u8 {
    match class {
        ReportClass::Dmarc => CLASS_DMARC,
        ReportClass::Tls => CLASS_TLS,
    }
}

/// Key of the message `id`.
pub open spec fn message_key(id: u64) -> Seq<u8> {
    seq![CLASS_MESSAGE] + be_bytes(id)
}

/// Key of the event of message `queue_id` at `due`.
pub open spec fn event_key(due: u64, queue_id: u64) -> Seq<u8> {
    seq![CLASS_EVENT] + be_bytes(due) + be_bytes(queue_id)
}

/// Key of a report record.
pub open spec fn report_key(class: ReportClass, e: ReportEventView) -> Seq<u8> {
    seq![class_byte(class)] + encode_utf8(e.domain) + be_bytes(e.policy_hash) + be_bytes(e.seq_id)
        + be_bytes(e.due)
}

/// The message that a key names.
pub open spec fn parse_message_key(key: Seq<u8>) -> Option<u64> {
    if key.len() == 9 && key[0] == CLASS_MESSAGE {
        Some(be_value(key.subrange(1, 9)))
    } else {
        None
    }
}

/// The event that a key names, as due time and message.
pub open spec fn parse_event_key(key: Seq<u8>) -> Option<(u64, u64)> {
    if key.len() == 17 && key[0] == CLASS_EVENT {
        Some((be_value(key.subrange(1, 9)), be_value(key.subrange(9, 17))))
    } else {
        None
    }
}

/// The report record that a key names: a class byte, a domain in UTF-8
/// and three numbers.
pub open spec fn parse_report_key(key: Seq<u8>) -> Option<(ReportClass, ReportEventView)> {
    let n = key.len() as int;
    if n >= 25 && (key[0] == CLASS_DMARC || key[0] == CLASS_TLS) && valid_utf8(
        key.subrange(1, n - 24),
    ) {
        Some(
            (
                if key[0] == CLASS_DMARC {
                    ReportClass::Dmarc
                } else {
                    ReportClass::Tls
                },
                ReportEventView {
                    domain: decode_utf8(key.subrange(1, n - 24)),
                    policy_hash: be_value(key.subrange(n - 24, n - 16)),
                    seq_id: be_value(key.subrange(n - 16, n - 8)),
                    due: be_value(key.subrange(n - 8, n)),
                },
            ),
        )
    } else {
        None
    }
}

/// `a` sorts before `b` byte by byte; a proper prefix sorts first.
pub open spec fn sorts_before(a: Seq<u8>, b: Seq<u8>) -> bool {
    exists|k: int|
        0 <= k <= a.len() && k <= b.len() && #[trigger] a.take(k) == b.take(k) && (if k
            == a.len() {
            k < b.len()
        } else {
            k < b.len() && a[k] < b[k]
        })
}

/// Reading the bytes of a number gives the number back.
pub proof fn lemma_be_round_trip(n: u64)
    ensures
        be_bytes(n).len() == 8,
        be_value(be_bytes(n)) == n,
{
    let b = be_bytes(n);
    assert(b[0] == ((n >> 56) & 0xff) as u8);
    assert(b[7] == (n & 0xff) as u8);
    assert(((((n >> 56) & 0xff) as u8) as u64) << 56 | ((((n >> 48) & 0xff) as u8) as u64) << 48 | (
    (((n >> 40) & 0xff) as u8) as u64) << 40 | ((((n >> 32) & 0xff) as u8) as u64) << 32 | ((((n
        >> 24) & 0xff) as u8) as u64) << 24 | ((((n >> 16) & 0xff) as u8) as u64) << 16 | ((((n
        >> 8) & 0xff) as u8) as u64) << 8 | (((n & 0xff) as u8) as u64) == n) by (bit_vector);
}

/// A message key names its message; distinct messages have distinct keys.
pub proof fn lemma_message_key_round_trip(id: u64)
    ensures
        parse_message_key(message_key(id)) == Some(id),
{
    lemma_be_round_trip(id);
    assert(message_key(id).subrange(1, 9) =~= be_bytes(id));
}

/// An event key names its due time and message.
pub proof fn lemma_event_key_round_trip(due: u64, queue_id: u64)
    ensures
        parse_event_key(event_key(due, queue_id)) == Some((due, queue_id)),
{
    lemma_be_round_trip(due);
    lemma_be_round_trip(queue_id);
    let k = event_key(due, queue_id);
    assert(k.subrange(1, 9) =~= be_bytes(due));
    assert(k.subrange(9, 17) =~= be_bytes(queue_id));
}

/// A report key names the record it was made from, for every record.
pub proof fn lemma_report_key_round_trip(class: ReportClass, e: ReportEventView)
    ensures
        parse_report_key(report_key(class, e)) == Some((class, e)),
{
    lemma_be_round_trip(e.policy_hash);
    lemma_be_round_trip(e.seq_id);
    lemma_be_round_trip(e.due);
    encode_utf8_decode_utf8(e.domain);
    encode_utf8_valid_utf8(e.domain);
    let k = report_key(class, e);
    let n = k.len() as int;
    assert(k.subrange(1, n - 24) =~= encode_utf8(e.domain));
    assert(k.subrange(n - 24, n - 16) =~= be_bytes(e.policy_hash));
    assert(k.subrange(n - 16, n - 8) =~= be_bytes(e.seq_id));
    assert(k.subrange(n - 8, n) =~= be_bytes(e.due));
}

/// Two records with the same key are the same record.
pub proof fn lemma_report_key_injective(
    c1: ReportClass,
    e1: ReportEventView,
    c2: ReportClass,
    e2: ReportEventView,
)
    requires
        report_key(c1, e1) == report_key(c2, e2),
    ensures
        c1 == c2,
        e1 == e2,
{
    lemma_report_key_round_trip(c1, e1);
    lemma_report_key_round_trip(c2, e2);
}

/// Appends the eight bytes of `n`, most significant first.
pub fn push_be(out: &mut Vec<u8>, n: u64)
    ensures
        final(out)@ == old(out)@ + be_bytes(n),
{
    assert((n >> 56) & 0xff < 256 && (n >> 48) & 0xff < 256 && (n >> 40) & 0xff < 256 && (n >> 32)
        & 0xff < 256 && (n >> 24) & 0xff < 256 && (n >> 16) & 0xff < 256 && (n >> 8) & 0xff < 256
        && n & 0xff < 256) by (bit_vector);
    out.push(((n >> 56) & 0xff) as u8);
    out.push(((n >> 48) & 0xff) as u8);
    out.push(((n >> 40) & 0xff) as u8);
    out.push(((n >> 32) & 0xff) as u8);
    out.push(((n >> 24) & 0xff) as u8);
    out.push(((n >> 16) & 0xff) as u8);
    out.push(((n >> 8) & 0xff) as u8);
    out.push((n & 0xff) as u8);
    proof {
        assert(out@ =~= old(out)@ + be_bytes(n));
    }
}

/// Reads the number at `key[at..at + 8]`.
pub fn read_be(key: &[u8], at: usize) -> (n: u64)
    requires
        at + 8 <= key@.len(),
    ensures
        n == be_value(key@.subrange(at as int, at + 8)),
{
    let ghost b = key@.subrange(at as int, at + 8);
    proof {
        assert(b[0] == key@[at + 0] && b[1] == key@[at + 1] && b[2] == key@[at + 2] && b[3]
            == key@[at + 3] && b[4] == key@[at + 4] && b[5] == key@[at + 5] && b[6] == key@[at
            + 6] && b[7] == key@[at + 7]);
    }
    (key[at] as u64) << 56 | (key[at + 1] as u64) << 48 | (key[at + 2] as u64) << 40 | (key[at
        + 3] as u64) << 32 | (key[at + 4] as u64) << 24 | (key[at + 5] as u64) << 16 | (key[at
        + 6] as u64) << 8 | (key[at + 7] as u64)
}

/// Text of a byte string, by `core::str::from_utf8`. As documented, the
/// call succeeds exactly when the bytes are valid UTF-8, and the text it
/// returns is made of those bytes.
#[verifier::external_body]
pub(crate) fn utf8_text(bytes: &[u8]) -> (r: Option<&str>)
    ensures
        r is Some <==> valid_utf8(bytes@),
        r matches Some(s) ==> s.spec_bytes() == bytes@,
{
    match core::str::from_utf8(bytes) {
        Ok(s) => Some(s),
        Err(_) => None,
    }
}

/// The key under which the message `id` is stored.
pub fn encode_message_key(id: u64) -> (key: Vec<u8>)
    ensures
        key@ == message_key(id),
{
    let mut key: Vec<u8> = Vec::new();
    key.push(CLASS_MESSAGE);
    push_be(&mut key, id);
    key
}

/// The key of a message's position in the scheduler's ordering.
pub fn encode_event_key(event: &QueueEvent) -> (key: Vec<u8>)
    ensures
        key@ == event_key(event.due, event.queue_id),
{
    let mut key: Vec<u8> = Vec::new();
    key.push(CLASS_EVENT);
    push_be(&mut key, event.due);
    push_be(&mut key, event.queue_id);
    key
}

/// The key under which a report record is stored.
pub fn encode_report_key(class: ReportClass, event: &ReportEvent) -> (key: Vec<u8>)
    ensures
        key@ == report_key(class, event@),
{
    let mut key: Vec<u8> = Vec::new();
    key.push(
        match class {
            ReportClass::Dmarc => CLASS_DMARC,
            ReportClass::Tls => CLASS_TLS,
        },
    );
    let domain = event.domain.as_str().as_bytes();
    let n = domain.len();
    let mut i: usize = 0;
    while i < n
        invariant
            i <= n,
            n == domain@.len(),
            key@ == seq![class_byte(class)] + domain@.take(i as int),
        decreases n - i,
    {
        key.push(domain[i]);
        proof {
            assert(domain@.take(i + 1) == domain@.take(i as int).push(domain@[i as int]));
        }
        i += 1;
    }
    proof {
        assert(domain@.take(n as int) == domain@);
    }
    push_be(&mut key, event.policy_hash);
    push_be(&mut key, event.seq_id);
    push_be(&mut key, event.due);
    key
}

/// Reads a message key; a key of any other shape is a corrupt record.
pub fn decode_message_key(key: &[u8]) -> (r: Result<u64, QueueError>)
    ensures
        match parse_message_key(key@) {
            Some(id) => r == Ok::<u64, QueueError>(id),
            None => r == Err::<u64, QueueError>(QueueError::CorruptRecord),
        },
{
    if key.len() == 9 && key[0] == CLASS_MESSAGE {
        Ok(read_be(key, 1))
    } else {
        Err(QueueError::CorruptRecord)
    }
}

/// Reads a message event key; a key of any other shape is a corrupt
/// record.
pub fn decode_event_key(key: &[u8]) -> (r: Result<QueueEvent, QueueError>)
    ensures
        match parse_event_key(key@) {
            Some(named) => r == Ok::<QueueEvent, QueueError>(
                QueueEvent { due: named.0, queue_id: named.1 },
            ),
            None => r == Err::<QueueEvent, QueueError>(QueueError::CorruptRecord),
        },
{
    if key.len() == 17 && key[0] == CLASS_EVENT {
        Ok(QueueEvent { due: read_be(key, 1), queue_id: read_be(key, 9) })
    } else {
        Err(QueueError::CorruptRecord)
    }
}

/// Reads a report key; a key of any other shape is a corrupt record.
pub fn decode_report_key(key: &[u8]) -> (r: Result<(ReportClass, ReportEvent), QueueError>)
    ensures
        match parse_report_key(key@) {
            Some(named) => r matches Ok(found) && found.0 == named.0 && found.1@ == named.1,
            None => r == Err::<(ReportClass, ReportEvent), QueueError>(QueueError::CorruptRecord),
        },
{
    let n = key.len();
    if n < 25 {
        return Err(QueueError::CorruptRecord);
    }
    let class = if key[0] == CLASS_DMARC {
        ReportClass::Dmarc
    } else if key[0] == CLASS_TLS {
        ReportClass::Tls
    } else {
        return Err(QueueError::CorruptRecord);
    };
    let domain = match utf8_text(&key[1..n - 24]) {
        Some(text) => text.to_owned(),
        None => {
            return Err(QueueError::CorruptRecord);
        },
    };
    proof {
        encode_utf8_decode_utf8(domain@);
    }
    let event = ReportEvent {
        due: read_be(key, n - 8),
        policy_hash: read_be(key, n - 24),
        seq_id: read_be(key, n - 16),
        domain,
    };
    Ok((class, event))
}

/// Big-endian bytes sort as the numbers do.
pub proof fn lemma_be_order(a: u64, b: u64)
    ensures
        a < b <==> sorts_before(be_bytes(a), be_bytes(b)),
{
    let x = be_bytes(a);
    let y = be_bytes(b);
    let a0 = ((a >> 56) & 0xff) as u8;
    let a1 = ((a >> 48) & 0xff) as u8;
    let a2 = ((a >> 40) & 0xff) as u8;
    let a3 = ((a >> 32) & 0xff) as u8;
    let a4 = ((a >> 24) & 0xff) as u8;
    let a5 = ((a >> 16) & 0xff) as u8;
    let a6 = ((a >> 8) & 0xff) as u8;
    let a7 = (a & 0xff) as u8;
    let b0 = ((b >> 56) & 0xff) as u8;
    let b1 = ((b >> 48) & 0xff) as u8;
    let b2 = ((b >> 40) & 0xff) as u8;
    let b3 = ((b >> 32) & 0xff) as u8;
    let b4 = ((b >> 24) & 0xff) as u8;
    let b5 = ((b >> 16) & 0xff) as u8;
    let b6 = ((b >> 8) & 0xff) as u8;
    let b7 = (b & 0xff) as u8;
    let first = if a0 != b0 {
        0int
    } else if a1 != b1 {
        1
    } else if a2 != b2 {
        2
    } else if a3 != b3 {
        3
    } else if a4 != b4 {
        4
    } else if a5 != b5 {
        5
    } else if a6 != b6 {
        6
    } else if a7 != b7 {
        7
    } else {
        8
    };
    assert(a < b <==> (a0 < b0 || a0 == b0 && (a1 < b1 || a1 == b1 && (a2 < b2 || a2 == b2 && (a3
        < b3 || a3 == b3 && (a4 < b4 || a4 == b4 && (a5 < b5 || a5 == b5 && (a6 < b6 || a6 == b6
        && a7 < b7)))))))) by (bit_vector)
        requires
            a0 == ((a >> 56) & 0xff) as u8,
            a1 == ((a >> 48) & 0xff) as u8,
            a2 == ((a >> 40) & 0xff) as u8,
            a3 == ((a >> 32) & 0xff) as u8,
            a4 == ((a >> 24) & 0xff) as u8,
            a5 == ((a >> 16) & 0xff) as u8,
            a6 == ((a >> 8) & 0xff) as u8,
            a7 == (a & 0xff) as u8,
            b0 == ((b >> 56) & 0xff) as u8,
            b1 == ((b >> 48) & 0xff) as u8,
            b2 == ((b >> 40) & 0xff) as u8,
            b3 == ((b >> 32) & 0xff) as u8,
            b4 == ((b >> 24) & 0xff) as u8,
            b5 == ((b >> 16) & 0xff) as u8,
            b6 == ((b >> 8) & 0xff) as u8,
            b7 == (b & 0xff) as u8,
    ;
    assert(x[0] == a0 && x[1] == a1 && x[2] == a2 && x[3] == a3 && x[4] == a4 && x[5] == a5 && x[6]
        == a6 && x[7] == a7);
    assert(y[0] == b0 && y[1] == b1 && y[2] == b2 && y[3] == b3 && y[4] == b4 && y[5] == b5 && y[6]
        == b6 && y[7] == b7);
    if a < b {
        assert(first < 8);
        assert(x.take(first) =~= y.take(first));
        assert(x[first] < y[first]);
    }
    if sorts_before(x, y) {
        let k = choose|k: int|
            0 <= k <= x.len() && k <= y.len() && #[trigger] x.take(k) == y.take(k) && (if k
                == x.len() {
                k < y.len()
            } else {
                k < y.len() && x[k] < y[k]
            });
        assert forall|j: int| 0 <= j < k implies x[j] == y[j] by {
            assert(x.take(k)[j] == y.take(k)[j]);
        }
        assert(k == first);
    }
}

/// Keys with a common prefix sort as what follows the prefix.
pub proof fn lemma_sorts_after_prefix(p: Seq<u8>, x: Seq<u8>, y: Seq<u8>)
    ensures
        sorts_before(p + x, p + y) <==> sorts_before(x, y),
{
    let a = p + x;
    let b = p + y;
    let n = p.len() as int;
    if sorts_before(x, y) {
        let k = choose|k: int|
            0 <= k <= x.len() && k <= y.len() && #[trigger] x.take(k) == y.take(k) && (if k
                == x.len() {
                k < y.len()
            } else {
                k < y.len() && x[k] < y[k]
            });
        assert(a.take(n + k) =~= p + x.take(k));
        assert(b.take(n + k) =~= p + y.take(k));
        if k < x.len() {
            assert(a[n + k] == x[k]);
            assert(b[n + k] == y[k]);
        }
        assert(sorts_before(a, b));
    }
    if sorts_before(a, b) {
        let k = choose|k: int|
            0 <= k <= a.len() && k <= b.len() && #[trigger] a.take(k) == b.take(k) && (if k
                == a.len() {
                k < b.len()
            } else {
                k < b.len() && a[k] < b[k]
            });
        if k < n {
            assert(a[k] == p[k]);
            assert(b[k] == p[k]);
        } else {
            assert(x.take(k - n) =~= y.take(k - n)) by {
                assert forall|j: int| 0 <= j < k - n implies x[j] == y[j] by {
                    assert(a.take(k)[n + j] == b.take(k)[n + j]);
                }
            }
            if k < a.len() {
                assert(a[k] == x[k - n]);
                assert(b[k] == y[k - n]);
            }
            assert(sorts_before(x, y));
        }
    }
}

/// Keys that start with fields of one width sort by the first field, and
/// by what follows where the first fields agree.
pub proof fn lemma_sorts_by_fields(x1: Seq<u8>, r1: Seq<u8>, x2: Seq<u8>, r2: Seq<u8>)
    requires
        x1.len() == x2.len(),
    ensures
        sorts_before(x1 + r1, x2 + r2) <==> (sorts_before(x1, x2) || (x1 == x2 && sorts_before(
            r1,
            r2,
        ))),
{
    let a = x1 + r1;
    let b = x2 + r2;
    let n = x1.len() as int;
    if sorts_before(x1, x2) {
        let k = choose|k: int|
            0 <= k <= x1.len() && k <= x2.len() && #[trigger] x1.take(k) == x2.take(k) && (if k
                == x1.len() {
                k < x2.len()
            } else {
                k < x2.len() && x1[k] < x2[k]
            });
        assert(a.take(k) =~= x1.take(k));
        assert(b.take(k) =~= x2.take(k));
        assert(a[k] == x1[k] && b[k] == x2[k]);
        assert(sorts_before(a, b));
    }
    if x1 == x2 {
        lemma_sorts_after_prefix(x1, r1, r2);
    }
    if sorts_before(a, b) && x1 != x2 {
        let k = choose|k: int|
            0 <= k <= a.len() && k <= b.len() && #[trigger] a.take(k) == b.take(k) && (if k
                == a.len() {
                k < b.len()
            } else {
                k < b.len() && a[k] < b[k]
            });
        if k >= n {
            assert(x1 =~= x2) by {
                assert forall|j: int| 0 <= j < n implies x1[j] == x2[j] by {
                    assert(a.take(k)[j] == b.take(k)[j]);
                }
            }
        }
        assert(x1.take(k) =~= x2.take(k)) by {
            assert forall|j: int| 0 <= j < k implies x1[j] == x2[j] by {
                assert(a.take(k)[j] == b.take(k)[j]);
            }
        }
        assert(a[k] == x1[k] && b[k] == x2[k]);
        assert(sorts_before(x1, x2));
    }
}

/// Message keys sort by message identifier.
pub proof fn lemma_message_key_order(a: u64, b: u64)
    ensures
        a < b <==> sorts_before(message_key(a), message_key(b)),
{
    lemma_be_order(a, b);
    lemma_sorts_after_prefix(seq![CLASS_MESSAGE], be_bytes(a), be_bytes(b));
}

/// Event keys sort by due time, and by message identifier where the due
/// times agree.
pub proof fn lemma_event_key_order(due1: u64, id1: u64, due2: u64, id2: u64)
    ensures
        (due1 < due2 || (due1 == due2 && id1 < id2)) <==> sorts_before(
            event_key(due1, id1),
            event_key(due2, id2),
        ),
{
    lemma_be_order(due1, due2);
    lemma_be_order(id1, id2);
    lemma_be_round_trip(due1);
    lemma_be_round_trip(due2);
    lemma_sorts_by_fields(be_bytes(due1), be_bytes(id1), be_bytes(due2), be_bytes(id2));
    lemma_sorts_after_prefix(
        seq![CLASS_EVENT],
        be_bytes(due1) + be_bytes(id1),
        be_bytes(due2) + be_bytes(id2),
    );
    assert(event_key(due1, id1) =~= seq![CLASS_EVENT] + (be_bytes(due1) + be_bytes(id1)));
    assert(event_key(due2, id2) =~= seq![CLASS_EVENT] + (be_bytes(due2) + be_bytes(id2)));
}

/// Within one class, domain and policy, records sort by sequence number
/// and then by due time; so a header, whose sequence number is zero,
/// sorts before every entry of its window.
pub proof fn lemma_report_key_order(class: ReportClass, a: ReportEventView, b: ReportEventView)
    requires
        a.domain == b.domain,
        a.policy_hash == b.policy_hash,
    ensures
        (a.seq_id < b.seq_id || (a.seq_id == b.seq_id && a.due < b.due)) <==> sorts_before(
            report_key(class, a),
            report_key(class, b),
        ),
        a.seq_id == 0 && b.seq_id > 0 ==> sorts_before(report_key(class, a), report_key(class, b)),
{
    lemma_be_order(a.seq_id, b.seq_id);
    lemma_be_order(a.due, b.due);
    lemma_be_round_trip(a.seq_id);
    lemma_be_round_trip(b.seq_id);
    let p = seq![class_byte(class)] + encode_utf8(a.domain) + be_bytes(a.policy_hash);
    lemma_sorts_by_fields(be_bytes(a.seq_id), be_bytes(a.due), be_bytes(b.seq_id), be_bytes(b.due));
    lemma_sorts_after_prefix(
        p,
        be_bytes(a.seq_id) + be_bytes(a.due),
        be_bytes(b.seq_id) + be_bytes(b.due),
    );
    assert(report_key(class, a) =~= p + (be_bytes(a.seq_id) + be_bytes(a.due)));
    assert(report_key(class, b) =~= p + (be_bytes(b.seq_id) + be_bytes(b.due)));
}

impl QueueClass {
    /// The key under which the entry is stored.
    pub open spec fn key(self) -> Seq<u8> {
        match self {
            QueueClass::Message(id) => message_key(id),
            QueueClass::MessageEvent(e) => event_key(e.due, e.queue_id),
            QueueClass::DmarcReportHeader(e) => report_key(ReportClass::Dmarc, e@),
            QueueClass::TlsReportHeader(e) => report_key(ReportClass::Tls, e@),
        }
    }
}

impl Serialize for QueueClass {
    /// The key under which the entry is stored.
    fn serialize(self) -> (key: Vec<u8>)
        ensures
            key@ == self.key(),
    {
        match self {
            QueueClass::Message(id) => encode_message_key(id),
            QueueClass::MessageEvent(e) => encode_event_key(&e),
            QueueClass::DmarcReportHeader(e) => encode_report_key(ReportClass::Dmarc, &e),
            QueueClass::TlsReportHeader(e) => encode_report_key(ReportClass::Tls, &e),
        }
    }
}

impl Deserialize for ReportEvent {
    /// The report record that a key names, whatever its class; a key of
    /// any other shape is an internal error.
    fn deserialize(bytes: &[u8]) -> (r: Result<ReportEvent, Error>)
        ensures
            match parse_report_key(bytes@) {
                Some(named) => r matches Ok(e) && e@ == named.1,
                None => r matches Err(Error::InternalError(_)),
            },
    {
        match decode_report_key(bytes) {
            Ok(found) => Ok(found.1),
            Err(_) => Err(Error::InternalError(String::from_str("Failed to read report key"))),
        }
    }
}

} // verus!
