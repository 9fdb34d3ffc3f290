//! Aggregate-report headers and their external identifiers.
//!
//! An identifier is the text `class!domain!policy_hash!seq_id!due`, where
//! `class` is `d` for DMARC and `t` for TLS and the three numbers are in
//! decimal notation.

use crate::decimal::{decimal, lemma_decimal, lemma_parse_decimal, parse_number, parse_u64, push_decimal, is_digit};
use crate::error::QueueError;
use crate::queue::QueueId;
use crate::text::{chars_of, push_char, string_of};
use vstd::prelude::*;
use vstd::string::StringExecFns;

verus! {

/// The character that separates the fields of an identifier.
pub const DELIMITER: char = '!';

/// The kind of an aggregate report.
#[derive(Debug, Clone, Copy, PartialEq, Eq, Structural)]
pub enum ReportClass {
    Dmarc,
    Tls,
}

/// Identifies one aggregate-report record: the header of a report window
/// (`seq_id` zero) or one of its accumulated entries (`seq_id` above zero).
#[derive(Debug, Clone, PartialEq, Eq)]
pub struct ReportEvent {
    pub due: u64,
    pub policy_hash: u64,
    pub seq_id: u64,
    pub domain: String,
}

/// A report record as plain values.
pub struct ReportEventView {
    pub due: u64,
    pub policy_hash: u64,
    pub seq_id: u64,
    pub domain: Seq<char>,
}

impl View for ReportEvent {
    type V = ReportEventView;

    open spec fn view(&self) -> ReportEventView {
        ReportEventView {
            due: self.due,
            policy_hash: self.policy_hash,
            seq_id: self.seq_id,
            domain: self.domain@,
        }
    }
}

/// Position of a message in the scheduler's ordering.
#[derive(Debug, Clone, Copy, PartialEq, Eq, Structural)]
pub struct QueueEvent {
    pub due: u64,
    pub queue_id: QueueId,
}

/// The classes of entries that the queue persists.
#[derive(Debug, Clone, PartialEq, Eq)]
pub enum QueueClass {
    Message(QueueId),
    MessageEvent(QueueEvent),
    DmarcReportHeader(ReportEvent),
    TlsReportHeader(ReportEvent),
}

impl QueueClass {
    /// The report that this entry names, if it names one.
    pub open spec fn report(self) -> Option<(ReportClass, ReportEventView)> {
        match self {
            QueueClass::DmarcReportHeader(e) => Some((ReportClass::Dmarc, e@)),
            QueueClass::TlsReportHeader(e) => Some((ReportClass::Tls, e@)),
            _ => None,
        }
    }
}

/// The class letter of an identifier.
pub open spec fn class_text(class: ReportClass) -> Seq<char> {
    match class {
        ReportClass::Dmarc => seq!['d'],
        ReportClass::Tls => seq!['t'],
    }
}

/// The class that a first field names.
pub open spec fn class_of(field: Seq<char>) -> Option<ReportClass> {
    if field == seq!['d'] {
        Some(ReportClass::Dmarc)
    } else if field == seq!['t'] {
        Some(ReportClass::Tls)
    } else {
        None
    }
}

/// No delimiter occurs in `s`.
pub open spec fn delimiter_free(s: Seq<char>) -> bool {
    forall|i: int| 0 <= i < s.len() ==> #[trigger] s[i] != DELIMITER
}

/// Length of the run before the first delimiter of `s`.
pub open spec fn first_field_len(s: Seq<char>) -> int
    decreases s.len(),
{
    if s.len() == 0 || s[0] == DELIMITER {
        0
    } else {
        1 + first_field_len(s.drop_first())
    }
}

/// The fields of `s`: the runs between its delimiters, in order. A text
/// with `n` delimiters has `n + 1` fields, some of which may be empty.
pub open spec fn split(s: Seq<char>) -> Seq<Seq<char>>
    decreases s.len(),
    via split_decreases
{
    let k = first_field_len(s);
    if k >= s.len() {
        seq![s]
    } else {
        seq![s.take(k)] + split(s.skip(k + 1))
    }
}

#[via_fn]
proof fn split_decreases(s: Seq<char>) {
    lemma_first_field_len(s);
}

/// The fields put together with a delimiter between neighbours.
pub open spec fn join(fields: Seq<Seq<char>>) -> Seq<char>
    decreases fields.len(),
{
    if fields.len() == 0 {
        Seq::empty()
    } else if fields.len() == 1 {
        fields[0]
    } else {
        fields[0] + seq![DELIMITER] + join(fields.drop_first())
    }
}

/// The identifier of a report.
pub open spec fn report_id(class: ReportClass, e: ReportEventView) -> Seq<char> {
    join(
        seq![
            class_text(class),
            e.domain,
            decimal(e.policy_hash as nat),
            decimal(e.seq_id as nat),
            decimal(e.due as nat),
        ],
    )
}

/// The report that an identifier names: its first five fields must be a
/// class letter, a domain and three numbers; further fields are ignored.
pub open spec fn parse_report_id(s: Seq<char>) -> Option<(ReportClass, ReportEventView)> {
    let fields = split(s);
    if fields.len() < 5 {
        None
    } else {
        match (
            class_of(fields[0]),
            parse_number(fields[2]),
            parse_number(fields[3]),
            parse_number(fields[4]),
        ) {
            (Some(class), Some(policy_hash), Some(seq_id), Some(due)) => Some(
                (class, ReportEventView { due, policy_hash, seq_id, domain: fields[1] }),
            ),
            _ => None,
        }
    }
}

/// The first field ends inside the text, at a delimiter or at the end,
/// and holds no delimiter.
pub proof fn lemma_first_field_len(s: Seq<char>)
    ensures
        0 <= first_field_len(s) <= s.len(),
        first_field_len(s) < s.len() ==> s[first_field_len(s)] == DELIMITER,
        delimiter_free(s.take(first_field_len(s))),
    decreases s.len(),
{
    if s.len() == 0 || s[0] == DELIMITER {
    } else {
        let t = s.drop_first();
        lemma_first_field_len(t);
        let k = first_field_len(s);
        assert forall|i: int| 0 <= i < k implies #[trigger] s.take(k)[i] != DELIMITER by {
            if i > 0 {
                assert(t.take(k - 1)[i - 1] == s[i]);
            }
        }
    }
}

/// The first field is the longest delimiter-free prefix.
pub proof fn lemma_first_field_at(s: Seq<char>, k: int)
    requires
        0 <= k <= s.len(),
        delimiter_free(s.take(k)),
        k < s.len() ==> s[k] == DELIMITER,
    ensures
        first_field_len(s) == k,
    decreases s.len(),
{
    if k == 0 {
    } else {
        assert(s.take(k)[0] == s[0]);
        let t = s.drop_first();
        assert forall|i: int| 0 <= i < k - 1 implies #[trigger] t.take(k - 1)[i] != DELIMITER by {
            assert(s.take(k)[i + 1] == s[i + 1]);
        }
        lemma_first_field_at(t, k - 1);
    }
}

/// The fields of the text after position `p`, one step unfolded over
/// positions of the whole text.
pub proof fn lemma_split_from(s: Seq<char>, p: int)
    requires
        0 <= p <= s.len(),
    ensures
        ({
            let e = p + first_field_len(s.skip(p));
            &&& p <= e <= s.len()
            &&& e < s.len() ==> s[e] == DELIMITER
            &&& split(s.skip(p)) == if e >= s.len() {
                seq![s.subrange(p, s.len() as int)]
            } else {
                seq![s.subrange(p, e)] + split(s.skip(e + 1))
            }
        }),
{
    let t = s.skip(p);
    lemma_first_field_len(t);
    let k = first_field_len(t);
    assert(t =~= s.subrange(p, s.len() as int));
    if k < t.len() {
        assert(t.take(k) =~= s.subrange(p, p + k));
        assert(t.skip(k + 1) =~= s.skip(p + k + 1));
    }
}

/// Splitting what was joined gives the fields back, as long as no field
/// holds a delimiter.
pub proof fn lemma_split_join(fields: Seq<Seq<char>>)
    requires
        fields.len() >= 1,
        forall|i: int| 0 <= i < fields.len() ==> delimiter_free(#[trigger] fields[i]),
    ensures
        split(join(fields)) == fields,
    decreases fields.len(),
{
    let s = join(fields);
    if fields.len() == 1 {
        assert(s.take(s.len() as int) == s);
        lemma_first_field_at(s, s.len() as int);
        assert(split(s) =~= fields);
    } else {
        let head = fields[0];
        let rest = fields.drop_first();
        let k = head.len() as int;
        assert(s.take(k) =~= head);
        assert(s[k] == DELIMITER);
        lemma_first_field_at(s, k);
        assert(s.skip(k + 1) =~= join(rest));
        assert forall|i: int| 0 <= i < rest.len() implies delimiter_free(#[trigger] rest[i]) by {
            assert(rest[i] == fields[i + 1]);
        }
        lemma_split_join(rest);
        assert(split(s) =~= fields);
    }
}

/// An identifier names the report it was made from, provided the domain
/// holds no delimiter.
pub proof fn lemma_report_id_round_trip(class: ReportClass, e: ReportEventView)
    requires
        delimiter_free(e.domain),
    ensures
        parse_report_id(report_id(class, e)) == Some((class, e)),
{
    let fields = seq![
        class_text(class),
        e.domain,
        decimal(e.policy_hash as nat),
        decimal(e.seq_id as nat),
        decimal(e.due as nat),
    ];
    lemma_decimal(e.policy_hash as nat);
    lemma_decimal(e.seq_id as nat);
    lemma_decimal(e.due as nat);
    lemma_parse_decimal(e.policy_hash);
    lemma_parse_decimal(e.seq_id);
    lemma_parse_decimal(e.due);
    assert forall|i: int| 0 <= i < fields.len() implies delimiter_free(#[trigger] fields[i]) by {
        if i >= 2 {
            assert forall|j: int| 0 <= j < fields[i].len() implies #[trigger] fields[i][j]
                != DELIMITER by {
                assert(is_digit(fields[i][j]));
            }
        }
    }
    lemma_split_join(fields);
    assert(class_of(class_text(class)) == Some(class)) by {
        assert(seq!['d'][0] != seq!['t'][0]);
    }
}

/// A text that ends in a delimiter and a delimiter-free field can be
/// taken apart in one way only.
pub proof fn lemma_last_field(x1: Seq<char>, d1: Seq<char>, x2: Seq<char>, d2: Seq<char>)
    requires
        delimiter_free(d1),
        delimiter_free(d2),
        x1 + seq![DELIMITER] + d1 == x2 + seq![DELIMITER] + d2,
    ensures
        x1 == x2,
        d1 == d2,
{
    let s1 = x1 + seq![DELIMITER] + d1;
    let s2 = x2 + seq![DELIMITER] + d2;
    assert(s1.len() == x1.len() + 1 + d1.len());
    assert(s2.len() == x2.len() + 1 + d2.len());
    assert(s1.len() == s2.len());
    if d1.len() < d2.len() {
        let at = x1.len() as int;
        assert(s1[at] == DELIMITER);
        assert(s2[at] == d2[at - x2.len() - 1]);
    }
    if d2.len() < d1.len() {
        let at = x2.len() as int;
        assert(s2[at] == DELIMITER);
        assert(s1[at] == d1[at - x1.len() - 1]);
    }
    assert(x1 =~= x2) by {
        assert forall|i: int| 0 <= i < x1.len() implies x1[i] == x2[i] by {
            assert(s1[i] == x1[i]);
            assert(s2[i] == x2[i]);
        }
    }
    assert(d1 =~= d2) by {
        assert forall|i: int| 0 <= i < d1.len() implies d1[i] == d2[i] by {
            assert(s1[x1.len() + 1 + i] == d1[i]);
            assert(s2[x2.len() + 1 + i] == d2[i]);
        }
    }
}

/// The identifier read from its end: what stands before the three
/// numbers, then the numbers.
proof fn lemma_report_id_from_end(class: ReportClass, e: ReportEventView)
    ensures
        report_id(class, e) == class_text(class) + seq![DELIMITER] + e.domain + seq![DELIMITER]
            + decimal(e.policy_hash as nat) + seq![DELIMITER] + decimal(e.seq_id as nat) + seq![
            DELIMITER,
        ] + decimal(e.due as nat),
        delimiter_free(decimal(e.policy_hash as nat)),
        delimiter_free(decimal(e.seq_id as nat)),
        delimiter_free(decimal(e.due as nat)),
{
    let f = seq![
        class_text(class),
        e.domain,
        decimal(e.policy_hash as nat),
        decimal(e.seq_id as nat),
        decimal(e.due as nat),
    ];
    let f1 = f.drop_first();
    let f2 = f1.drop_first();
    let f3 = f2.drop_first();
    let f4 = f3.drop_first();
    assert(join(f4) == f[4]);
    assert(join(f3) == f[3] + seq![DELIMITER] + join(f4));
    assert(join(f2) == f[2] + seq![DELIMITER] + join(f3));
    assert(join(f1) == f[1] + seq![DELIMITER] + join(f2));
    assert(join(f) == f[0] + seq![DELIMITER] + join(f1));
    assert(join(f) =~= f[0] + seq![DELIMITER] + f[1] + seq![DELIMITER] + f[2] + seq![DELIMITER]
        + f[3] + seq![DELIMITER] + f[4]);
    lemma_decimal(e.policy_hash as nat);
    lemma_decimal(e.seq_id as nat);
    lemma_decimal(e.due as nat);
    assert forall|i: int| 2 <= i < 5 implies delimiter_free(#[trigger] f[i]) by {
        assert forall|j: int| 0 <= j < f[i].len() implies #[trigger] f[i][j] != DELIMITER by {
            assert(is_digit(f[i][j]));
        }
    }
    assert(delimiter_free(f[2]));
    assert(delimiter_free(f[3]));
    assert(delimiter_free(f[4]));
}

/// Two reports with the same identifier are the same report, whatever
/// their domains hold.
pub proof fn lemma_report_id_injective(
    c1: ReportClass,
    e1: ReportEventView,
    c2: ReportClass,
    e2: ReportEventView,
)
    requires
        report_id(c1, e1) == report_id(c2, e2),
    ensures
        c1 == c2,
        e1 == e2,
{
    lemma_report_id_from_end(c1, e1);
    lemma_report_id_from_end(c2, e2);
    let a1 = class_text(c1) + seq![DELIMITER] + e1.domain;
    let a2 = class_text(c2) + seq![DELIMITER] + e2.domain;
    let h1 = decimal(e1.policy_hash as nat);
    let h2 = decimal(e2.policy_hash as nat);
    let s1 = decimal(e1.seq_id as nat);
    let s2 = decimal(e2.seq_id as nat);
    let d1 = decimal(e1.due as nat);
    let d2 = decimal(e2.due as nat);
    lemma_last_field(
        a1 + seq![DELIMITER] + h1 + seq![DELIMITER] + s1,
        d1,
        a2 + seq![DELIMITER] + h2 + seq![DELIMITER] + s2,
        d2,
    );
    lemma_last_field(a1 + seq![DELIMITER] + h1, s1, a2 + seq![DELIMITER] + h2, s2);
    lemma_last_field(a1, h1, a2, h2);
    crate::decimal::lemma_decimal_injective(e1.policy_hash as nat, e2.policy_hash as nat);
    crate::decimal::lemma_decimal_injective(e1.seq_id as nat, e2.seq_id as nat);
    crate::decimal::lemma_decimal_injective(e1.due as nat, e2.due as nat);
    assert(class_text(c1).len() == 1 && class_text(c2).len() == 1);
    assert(a1[0] == class_text(c1)[0]);
    assert(a2[0] == class_text(c2)[0]);
    assert(seq!['d'][0] != seq!['t'][0]);
    assert(c1 == c2);
    assert(e1.domain =~= e2.domain) by {
        assert(e1.domain.len() == e2.domain.len());
        assert forall|i: int| 0 <= i < e1.domain.len() implies e1.domain[i] == e2.domain[i] by {
            assert(a1[2 + i] == e1.domain[i]);
            assert(a2[2 + i] == e2.domain[i]);
        }
    }
}

/// End of the field that starts at `from`: the position of the next
/// delimiter, or the length of the text.
pub fn field_end(v: &Vec<char>, from: usize) -> (end: usize)
    requires
        from <= v@.len(),
    ensures
        end == from + first_field_len(v@.skip(from as int)),
        from <= end <= v@.len(),
{
    let n = v.len();
    let mut i: usize = from;
    while i < n && v[i] != DELIMITER
        invariant
            from <= i <= n,
            n == v@.len(),
            forall|k: int| from <= k < i ==> v@[k] != DELIMITER,
        decreases n - i,
    {
        i += 1;
    }
    proof {
        let t = v@.skip(from as int);
        assert forall|k: int| 0 <= k < i - from implies #[trigger] t.take(i - from)[k]
            != DELIMITER by {
            assert(t.take(i - from)[k] == v@[from + k]);
        }
        lemma_first_field_at(t, i - from);
    }
    i
}

impl QueueClass {
    /// The external identifier of a report header.
    pub fn queue_id(&self) -> (id: String)
        requires
            self.report() is Some,
        ensures
            self.report() matches Some(named) && id@ == report_id(named.0, named.1),
    {
        let mut id = String::new();
        let h = match self {
            QueueClass::DmarcReportHeader(h) => {
                push_char(&mut id, 'd');
                h
            },
            QueueClass::TlsReportHeader(h) => {
                push_char(&mut id, 't');
                h
            },
            _ => { unreached() },
        };
        push_char(&mut id, DELIMITER);
        id.append(h.domain.as_str());
        push_char(&mut id, DELIMITER);
        push_decimal(&mut id, h.policy_hash);
        push_char(&mut id, DELIMITER);
        push_decimal(&mut id, h.seq_id);
        push_char(&mut id, DELIMITER);
        push_decimal(&mut id, h.due);
        proof {
            let named = self.report()->0;
            lemma_report_id_from_end(named.0, named.1);
            assert(id@ =~= report_id(named.0, named.1));
        }
        id
    }
}

/// Reads an external report identifier. Anything that is not one names
/// no report.
pub fn parse_queued_report_id(id: &str) -> (r: Option<QueueClass>)
    ensures
        match parse_report_id(id@) {
            Some(named) => r matches Some(q) && q.report() == Some(named),
            None => r is None,
        },
{
    let v = chars_of(id);
    let n = v.len();
    let ghost s = v@;
    proof {
        assert(s.skip(0) =~= s);
        lemma_split_from(s, 0);
    }
    let a = field_end(&v, 0);
    if a >= n {
        return None;
    }
    proof {
        lemma_split_from(s, a + 1);
    }
    let b = field_end(&v, a + 1);
    if b >= n {
        return None;
    }
    proof {
        lemma_split_from(s, b + 1);
    }
    let c = field_end(&v, b + 1);
    if c >= n {
        return None;
    }
    proof {
        lemma_split_from(s, c + 1);
    }
    let d = field_end(&v, c + 1);
    if d >= n {
        return None;
    }
    proof {
        lemma_split_from(s, d + 1);
    }
    let e = field_end(&v, d + 1);
    proof {
        let fields = split(s);
        let tail = split(s.skip(d + 1));
        assert(tail[0] == s.subrange(d + 1, e as int));
        assert(fields == seq![s.subrange(0, a as int)] + (seq![s.subrange(a + 1, b as int)] + (
        seq![s.subrange(b + 1, c as int)] + (seq![s.subrange(c + 1, d as int)] + tail))));
        assert(fields.len() >= 5);
        assert(fields[0] == s.subrange(0, a as int));
        assert(fields[1] == s.subrange(a + 1, b as int));
        assert(fields[2] == s.subrange(b + 1, c as int));
        assert(fields[3] == s.subrange(c + 1, d as int));
        assert(fields[4] == s.subrange(d + 1, e as int));
    }
    let policy_hash = match parse_u64(&v, b + 1, c) {
        Some(x) => x,
        None => { return None; },
    };
    let seq_id = match parse_u64(&v, c + 1, d) {
        Some(x) => x,
        None => { return None; },
    };
    let due = match parse_u64(&v, d + 1, e) {
        Some(x) => x,
        None => { return None; },
    };
    if a != 1 {
        proof {
            assert(s.subrange(0, a as int).len() != 1);
        }
        return None;
    }
    let letter = v[0];
    proof {
        assert(s.subrange(0, 1)[0] == letter);
        assert(seq!['d'][0] == 'd');
        assert(seq!['t'][0] == 't');
        if letter == 'd' {
            assert(s.subrange(0, 1) =~= seq!['d']);
        }
        if letter == 't' {
            assert(s.subrange(0, 1) =~= seq!['t']);
        }
    }
    if letter != 'd' && letter != 't' {
        return None;
    }
    let event = ReportEvent { due, policy_hash, seq_id, domain: string_of(&v, a + 1, b) };
    if letter == 'd' {
        Some(QueueClass::DmarcReportHeader(event))
    } else {
        Some(QueueClass::TlsReportHeader(event))
    }
}

} // verus!
