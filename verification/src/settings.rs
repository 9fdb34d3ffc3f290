//! Listing and updating configuration settings: how a listing of keys and
//! values is filtered, grouped into records and cut into pages, and what
//! an update asks of the configuration store.

use crate::paging::{on_page_at, page_len, page_offset};
use crate::text::{
    chars_of, contains, lowercase, occurs_in, opt_text, push_char, same_text, strip_prefix,
    strip_suffix, to_lowercase, without_prefix, without_suffix,
};
use vstd::prelude::*;
use vstd::string::StringExecFns;

verus! {

/// One setting: its key and its value.
pub type Setting = (String, String);

/// A change to the settings.
#[derive(Debug, Clone, PartialEq, Eq)]
pub enum UpdateSettings {
    Delete { keys: Vec<String> },
    Clear { prefix: String, filter: Option<String> },
    Insert { prefix: Option<String>, values: Vec<(String, String)>, assert_empty: bool },
}

/// What has to hold of the store before an insertion is made.
#[derive(Debug, Clone, PartialEq, Eq)]
pub enum Precondition {
    /// Nothing.
    Nothing,
    /// No setting has a key that starts with this prefix.
    NoneUnder(String),
    /// No setting has this key.
    Absent(String),
}

/// The settings of one record, by their keys within the record. `id` is
/// the value shown under the key `_id`.
#[derive(Debug, Clone, PartialEq, Eq)]
pub struct Record {
    pub id: String,
    pub fields: Vec<Setting>,
}

/// The key under which a record shows its identifier.
pub open spec fn id_key() -> Seq<char> {
    "_id"@
}

/// `p` with a dot at its end, unless it has one.
pub open spec fn dot_ended(p: Seq<char>) -> Seq<char> {
    if p.len() > 0 && p.last() == '.' {
        p
    } else {
        p.push('.')
    }
}

/// `s` with a dot at its start, unless it has one.
pub open spec fn dot_started(s: Seq<char>) -> Seq<char> {
    if s.len() > 0 && s[0] == '.' {
        s
    } else {
        seq!['.'] + s
    }
}

/// The prefix under which settings are listed: the parameter with a dot
/// at its end; empty without a parameter.
pub fn list_prefix(param: Option<&str>) -> (r: String)
    ensures
        r@ == match param {
            Some(p) => dot_ended(p@),
            None => Seq::empty(),
        },
{
    match param {
        Some(p) => {
            let v = chars_of(p);
            let mut r = String::from_str(p);
            if v.len() == 0 || v[v.len() - 1] != '.' {
                push_char(&mut r, '.');
            }
            r
        },
        None => String::new(),
    }
}

/// The suffix by which records are found: the parameter with a dot at
/// its start; empty without a parameter.
pub fn list_suffix(param: Option<&str>) -> (r: String)
    ensures
        r@ == match param {
            Some(s) => dot_started(s@),
            None => Seq::empty(),
        },
{
    match param {
        Some(s) => {
            let v = chars_of(s);
            if v.len() > 0 && v[0] == '.' {
                String::from_str(s)
            } else {
                proof {
                    reveal_strlit(".");
                    assert("."@ =~= seq!['.']);
                }
                String::from_str(".").concat(s)
            }
        },
        None => String::new(),
    }
}

/// The key under which a value is inserted: under the prefix, where
/// there is one.
pub fn insert_key(prefix: Option<&str>, key: &str) -> (r: String)
    ensures
        r@ == match prefix {
            Some(p) => p@ + "."@ + key@,
            None => key@,
        },
{
    match prefix {
        Some(p) => String::from_str(p).concat(".").concat(key),
        None => String::from_str(key),
    }
}

/// The filter occurs in the value or in the key.
pub open spec fn filter_occurs(filter: Seq<char>, key: Seq<char>, value: Seq<char>) -> bool {
    occurs_in(value, filter) || occurs_in(key, filter)
}

/// Whether the filter occurs in the value or in the key.
pub fn occurs(filter: &str, key: &str, value: &str) -> (r: bool)
    ensures
        r == filter_occurs(filter@, key@, value@),
{
    contains(value, filter) || contains(key, filter)
}

/// Whether clearing with `filter` removes the setting: the filter occurs
/// in its value or in its key, both taken in lower case.
pub fn clears(filter: &str, key: &str, value: &str) -> (r: bool)
    ensures
        r == filter_occurs(filter@, lowercase(key@), lowercase(value@)),
{
    occurs(filter, to_lowercase(key).as_str(), to_lowercase(value).as_str())
}

/// What an insertion has to make sure of first. Only an insertion that
/// asks for it checks anything: with a prefix, that nothing is stored
/// under the prefix; without one, that the first key is not taken.
pub fn precondition(update: &UpdateSettings) -> (r: Precondition)
    ensures
        match *update {
            UpdateSettings::Insert { prefix: Some(p), values, assert_empty: true } => r matches Precondition::NoneUnder(
                q,
            ) && q@ == p@ + "."@,
            UpdateSettings::Insert { prefix: None, values, assert_empty: true } => if values@.len()
                > 0 {
                r matches Precondition::Absent(k) && k@ == values@[0].0@
            } else {
                r is Nothing
            },
            _ => r is Nothing,
        },
{
    match update {
        UpdateSettings::Insert { prefix, values, assert_empty } => {
            if !*assert_empty {
                Precondition::Nothing
            } else {
                match prefix {
                    Some(p) => Precondition::NoneUnder(String::from_str(p.as_str()).concat(".")),
                    None => if values.len() > 0 {
                        Precondition::Absent(values[0].0.clone())
                    } else {
                        Precondition::Nothing
                    },
                }
            }
        },
        _ => Precondition::Nothing,
    }
}

/// A setting passes a text filter when the filter is empty or occurs in
/// its key or its value, both taken in lower case.
pub open spec fn setting_passes(s: Setting, filter: Seq<char>) -> bool {
    filter.len() == 0 || filter_occurs(filter, lowercase(s.0@), lowercase(s.1@))
}

/// The settings that pass `filter`, in order.
pub open spec fn passing(settings: Seq<Setting>, filter: Seq<char>) -> Seq<Setting>
    decreases settings.len(),
{
    if settings.len() == 0 {
        Seq::empty()
    } else if setting_passes(settings.last(), filter) {
        passing(settings.drop_last(), filter).push(settings.last())
    } else {
        passing(settings.drop_last(), filter)
    }
}

/// The key shown for a setting: its key without the listing prefix,
/// where it starts with it.
pub open spec fn shown_key(key: Seq<char>, prefix: Seq<char>) -> Seq<char> {
    match without_prefix(key, prefix) {
        Some(rest) => rest,
        None => key,
    }
}

/// Lists the settings that pass `filter` one by one: those on page
/// `page` of `limit` entries, each with its key cut after `prefix`, and
/// the number of all that passed.
pub fn list_items(settings: &Vec<Setting>, prefix: &str, filter: &str, page: usize, limit: usize) -> (r: (
    Vec<Setting>,
    usize,
))
    ensures
        r.1 == passing(settings@, filter@).len(),
        r.0@.len() == page_len(page_offset(page, limit), limit as int, r.1 as int),
        forall|k: int|
            0 <= k < r.0@.len() ==> (#[trigger] r.0@[k]).0@ == shown_key(
                passing(settings@, filter@)[page_offset(page, limit) + k].0@,
                prefix@,
            ) && r.0@[k].1@ == passing(settings@, filter@)[page_offset(page, limit) + k].1@,
{
    let ghost skip = page_offset(page, limit);
    let unfiltered = chars_of(filter).len() == 0;
    let n = settings.len();
    let mut items: Vec<Setting> = Vec::new();
    let mut total: usize = 0;
    let mut i: usize = 0;
    while i < n
        invariant
            i <= n,
            n == settings@.len(),
            skip == page_offset(page, limit),
            unfiltered == (filter@.len() == 0),
            total == passing(settings@.take(i as int), filter@).len(),
            total <= i,
            items@.len() == page_len(skip, limit as int, total as int),
            forall|k: int|
                0 <= k < items@.len() ==> (#[trigger] items@[k]).0@ == shown_key(
                    passing(settings@.take(i as int), filter@)[skip + k].0@,
                    prefix@,
                ) && items@[k].1@ == passing(settings@.take(i as int), filter@)[skip + k].1@,
        decreases n - i,
    {
        proof {
            assert(settings@.take(i + 1).drop_last() == settings@.take(i as int));
            assert(settings@.take(i + 1).last() == settings@[i as int]);
        }
        let key = &settings[i].0;
        let value = &settings[i].1;
        if unfiltered || clears(filter, key.as_str(), value.as_str()) {
            let on_page = on_page_at(page, limit, total);
            if on_page {
                let shown = match strip_prefix(key.as_str(), prefix) {
                    Some(rest) => rest,
                    None => key.clone(),
                };
                items.push((shown, value.clone()));
            }
            total += 1;
        }
        i += 1;
    }
    proof {
        assert(settings@.take(n as int) == settings@);
    }
    (items, total)
}

/// The identifiers of the records among `settings`: what stands before
/// `suffix` in each key that ends with it, unless that is nothing.
pub open spec fn record_ids(settings: Seq<Setting>, suffix: Seq<char>) -> Seq<Seq<char>>
    decreases settings.len(),
{
    if settings.len() == 0 {
        Seq::empty()
    } else {
        let before = record_ids(settings.drop_last(), suffix);
        match without_suffix(settings.last().0@, suffix) {
            Some(id) if id.len() > 0 => before.push(id),
            _ => before,
        }
    }
}

/// The identifiers of the records among `settings`, in order.
pub fn find_record_ids(settings: &Vec<Setting>, suffix: &str) -> (ids: Vec<String>)
    ensures
        ids@.len() == record_ids(settings@, suffix@).len(),
        forall|k: int| 0 <= k < ids@.len() ==> (#[trigger] ids@[k])@ == record_ids(settings@, suffix@)[k],
{
    let n = settings.len();
    let mut ids: Vec<String> = Vec::new();
    let mut i: usize = 0;
    while i < n
        invariant
            i <= n,
            n == settings@.len(),
            ids@.len() == record_ids(settings@.take(i as int), suffix@).len(),
            forall|k: int|
                0 <= k < ids@.len() ==> (#[trigger] ids@[k])@ == record_ids(
                    settings@.take(i as int),
                    suffix@,
                )[k],
        decreases n - i,
    {
        proof {
            assert(settings@.take(i + 1).drop_last() == settings@.take(i as int));
            assert(settings@.take(i + 1).last() == settings@[i as int]);
        }
        match strip_suffix(settings[i].0.as_str(), suffix) {
            Some(id) => {
                if chars_of(id.as_str()).len() > 0 {
                    ids.push(id);
                }
            },
            None => {},
        }
        i += 1;
    }
    proof {
        assert(settings@.take(n as int) == settings@);
    }
    ids
}

/// A record as plain values.
pub struct RecordView {
    pub id: Seq<char>,
    pub fields: Seq<(Seq<char>, Seq<char>)>,
}

impl View for Record {
    type V = RecordView;

    open spec fn view(&self) -> RecordView {
        RecordView {
            id: self.id@,
            fields: Seq::new(self.fields@.len(), |i: int| (self.fields@[i].0@, self.fields@[i].1@)),
        }
    }
}

/// A field is shown when no field was asked for or it is the one asked
/// for.
pub open spec fn field_shown(field: Option<Seq<char>>, key: Seq<char>) -> bool {
    match field {
        Some(f) => f == key,
        None => true,
    }
}

/// The record gathered from `settings[from..]` into `rec`, for the keys
/// that start with `prefix`. A key `_id` sets the shown identifier; any
/// other shown key adds a field. The scan ends at the first key outside
/// the prefix once the record has a field. (The settings come from a map,
/// so no key occurs twice and the fields are those of the map.)
pub open spec fn gathered(
    settings: Seq<Setting>,
    from: int,
    prefix: Seq<char>,
    field: Option<Seq<char>>,
    rec: RecordView,
) -> RecordView
    decreases settings.len() - from,
{
    if from < 0 || from >= settings.len() {
        rec
    } else {
        match without_prefix(settings[from].0@, prefix) {
            Some(key) => if !field_shown(field, key) {
                gathered(settings, from + 1, prefix, field, rec)
            } else if key == id_key() {
                gathered(
                    settings,
                    from + 1,
                    prefix,
                    field,
                    RecordView { id: settings[from].1@, fields: rec.fields },
                )
            } else {
                gathered(
                    settings,
                    from + 1,
                    prefix,
                    field,
                    RecordView { id: rec.id, fields: rec.fields.push((key, settings[from].1@)) },
                )
            },
            None => if rec.fields.len() > 0 {
                rec
            } else {
                gathered(settings, from + 1, prefix, field, rec)
            },
        }
    }
}

/// The record with the identifier `id`.
pub open spec fn record_of(settings: Seq<Setting>, id: Seq<char>, field: Option<Seq<char>>) -> RecordView {
    gathered(settings, 0, id + "."@, field, RecordView { id, fields: Seq::empty() })
}

/// The record with every value in lower case.
pub open spec fn lowered(rec: RecordView) -> RecordView {
    RecordView {
        id: lowercase(rec.id),
        fields: Seq::new(rec.fields.len(), |i: int| (rec.fields[i].0, lowercase(rec.fields[i].1))),
    }
}

/// The filter occurs in one of the values of the record.
pub open spec fn holds(rec: RecordView, filter: Seq<char>) -> bool {
    occurs_in(rec.id, filter) || exists|i: int|
        0 <= i < rec.fields.len() && occurs_in((#[trigger] rec.fields[i]).1, filter)
}

/// A record passes a text filter when the filter occurs in one of its
/// values, taken in lower case.
pub open spec fn record_passes(rec: RecordView, filter: Seq<char>) -> bool {
    holds(lowered(rec), filter)
}

/// The records of `ids` that are listed: all of them without a filter,
/// else those that pass it.
pub open spec fn listed_records(
    settings: Seq<Setting>,
    ids: Seq<Seq<char>>,
    field: Option<Seq<char>>,
    filter: Seq<char>,
) -> Seq<RecordView>
    decreases ids.len(),
{
    if ids.len() == 0 {
        Seq::empty()
    } else {
        let before = listed_records(settings, ids.drop_last(), field, filter);
        let rec = record_of(settings, ids.last(), field);
        if filter.len() == 0 || record_passes(rec, filter) {
            before.push(rec)
        } else {
            before
        }
    }
}

/// Gathers the record with the identifier `id`.
pub fn gather(settings: &Vec<Setting>, id: &str, field: Option<&str>) -> (rec: Record)
    ensures
        rec@ == record_of(settings@, id@, opt_text(field)),
{
    let prefix = String::from_str(id).concat(".");
    let ghost want = opt_text(field);
    let ghost start = RecordView { id: id@, fields: Seq::empty() };
    let mut rec = Record { id: String::from_str(id), fields: Vec::new() };
    let n = settings.len();
    let mut i: usize = 0;
    proof {
        assert(rec@.fields =~= start.fields);
    }
    while i < n
        invariant
            i <= n,
            n == settings@.len(),
            prefix@ == id@ + "."@,
            want == opt_text(field),
            gathered(settings@, i as int, prefix@, want, rec@) == record_of(settings@, id@, want),
        decreases n - i,
    {
        let ghost before = rec@;
        match strip_prefix(settings[i].0.as_str(), prefix.as_str()) {
            Some(key) => {
                let shown = match field {
                    Some(f) => same_text(f, key.as_str()),
                    None => true,
                };
                if shown {
                    if same_text(key.as_str(), "_id") {
                        rec.id = settings[i].1.clone();
                        proof {
                            assert(rec@.fields =~= before.fields);
                        }
                    } else {
                        rec.fields.push((key, settings[i].1.clone()));
                        proof {
                            assert(rec@.fields =~= before.fields.push(
                                (key@, settings@[i as int].1@),
                            ));
                        }
                    }
                }
            },
            None => {
                if rec.fields.len() > 0 {
                    return rec;
                }
            },
        }
        i += 1;
    }
    rec
}

impl Record {
    /// The record with every value in lower case.
    pub fn lowered(&self) -> (r: Record)
        ensures
            r@ == lowered(self@),
    {
        let n = self.fields.len();
        let mut fields: Vec<Setting> = Vec::new();
        let mut i: usize = 0;
        while i < n
            invariant
                i <= n,
                n == self.fields@.len(),
                fields@.len() == i,
                forall|k: int|
                    0 <= k < i ==> (#[trigger] fields@[k]).0@ == self.fields@[k].0@ && fields@[k].1@
                        == lowercase(self.fields@[k].1@),
            decreases n - i,
        {
            fields.push((self.fields[i].0.clone(), to_lowercase(self.fields[i].1.as_str())));
            i += 1;
        }
        let r = Record { id: to_lowercase(self.id.as_str()), fields };
        proof {
            assert(r@.fields =~= lowered(self@).fields);
        }
        r
    }

    /// Whether the filter occurs in one of the values of the record.
    pub fn holds(&self, filter: &str) -> (r: bool)
        ensures
            r == holds(self@, filter@),
    {
        if contains(self.id.as_str(), filter) {
            return true;
        }
        let n = self.fields.len();
        let mut i: usize = 0;
        while i < n
            invariant
                i <= n,
                n == self.fields@.len(),
                forall|k: int| 0 <= k < i ==> !occurs_in((#[trigger] self@.fields[k]).1, filter@),
            decreases n - i,
        {
            if contains(self.fields[i].1.as_str(), filter) {
                proof {
                    assert(occurs_in(self@.fields[i as int].1, filter@));
                }
                return true;
            }
            i += 1;
        }
        false
    }

    /// Whether the record passes the text filter.
    pub fn passes(&self, filter: &str) -> (r: bool)
        ensures
            r == record_passes(self@, filter@),
    {
        self.lowered().holds(filter)
    }
}

/// Lists the settings grouped into records. The records are those whose
/// identifier stands before `suffix` in some key; each holds the settings
/// under its identifier, or only `field` where one is asked for. With a
/// filter only the records that pass it are listed. The result is page
/// `page` of `limit` records, with the number of all that are listed.
pub fn list_records(
    settings: &Vec<Setting>,
    suffix: &str,
    field: Option<&str>,
    filter: &str,
    page: usize,
    limit: usize,
) -> (r: (Vec<Record>, usize))
    ensures
        r.1 == listed_records(
            settings@,
            record_ids(settings@, suffix@),
            opt_text(field),
            filter@,
        ).len(),
        r.0@.len() == page_len(page_offset(page, limit), limit as int, r.1 as int),
        forall|k: int|
            0 <= k < r.0@.len() ==> (#[trigger] r.0@[k])@ == listed_records(
                settings@,
                record_ids(settings@, suffix@),
                opt_text(field),
                filter@,
            )[page_offset(page, limit) + k],
{
    let ghost skip = page_offset(page, limit);
    let ghost want = opt_text(field);
    let ghost all_ids = record_ids(settings@, suffix@);
    let unfiltered = chars_of(filter).len() == 0;
    let ids = find_record_ids(settings, suffix);
    let n = ids.len();
    let mut items: Vec<Record> = Vec::new();
    let mut total: usize = 0;
    let mut i: usize = 0;
    while i < n
        invariant
            i <= n,
            n == ids@.len(),
            n == all_ids.len(),
            forall|k: int| 0 <= k < n ==> (#[trigger] ids@[k])@ == all_ids[k],
            skip == page_offset(page, limit),
            want == opt_text(field),
            unfiltered == (filter@.len() == 0),
            total == listed_records(settings@, all_ids.take(i as int), want, filter@).len(),
            total <= i,
            items@.len() == page_len(skip, limit as int, total as int),
            forall|k: int|
                0 <= k < items@.len() ==> (#[trigger] items@[k])@ == listed_records(
                    settings@,
                    all_ids.take(i as int),
                    want,
                    filter@,
                )[skip + k],
        decreases n - i,
    {
        proof {
            assert(all_ids.take(i + 1).drop_last() == all_ids.take(i as int));
            assert(all_ids.take(i + 1).last() == all_ids[i as int]);
        }
        let on_page = on_page_at(page, limit, total);
        if unfiltered {
            if on_page {
                items.push(gather(settings, ids[i].as_str(), field));
            }
            total += 1;
        } else {
            let rec = gather(settings, ids[i].as_str(), field);
            if rec.passes(filter) {
                if on_page {
                    items.push(rec);
                }
                total += 1;
            }
        }
        i += 1;
    }
    proof {
        assert(all_ids.take(n as int) == all_ids);
    }
    (items, total)
}

/// A listing of settings, by records or one by one.
#[derive(Debug, PartialEq, Eq)]
pub enum Listing {
    Records { items: Vec<Record>, total: usize },
    Items { items: Vec<Setting>, total: usize },
}

/// The text filter of a listing: the parameter in lower case; empty
/// without a parameter.
pub open spec fn filter_text(param: Option<&str>) -> Seq<char> {
    match param {
        Some(f) => lowercase(f@),
        None => Seq::empty(),
    }
}

/// The suffix of a listing: the parameter with a dot at its start; empty
/// without a parameter.
pub open spec fn suffix_text(param: Option<&str>) -> Seq<char> {
    match param {
        Some(s) => dot_started(s@),
        None => Seq::empty(),
    }
}

/// Lists the settings found under `prefix`. With a suffix, and where
/// there are settings, they are listed by records; else one by one.
pub fn list_group(
    settings: &Vec<Setting>,
    prefix: &str,
    suffix: Option<&str>,
    field: Option<&str>,
    filter: Option<&str>,
    page: usize,
    limit: usize,
) -> (r: Listing)
    ensures
        if suffix_text(suffix).len() > 0 && settings@.len() > 0 {
            let all = listed_records(
                settings@,
                record_ids(settings@, suffix_text(suffix)),
                opt_text(field),
                filter_text(filter),
            );
            &&& r matches Listing::Records { items, total }
            &&& total == all.len()
            &&& items@.len() == page_len(page_offset(page, limit), limit as int, total as int)
            &&& forall|k: int|
                0 <= k < items@.len() ==> (#[trigger] items@[k])@ == all[page_offset(page, limit)
                    + k]
        } else {
            let all = passing(settings@, filter_text(filter));
            &&& r matches Listing::Items { items, total }
            &&& total == all.len()
            &&& items@.len() == page_len(page_offset(page, limit), limit as int, total as int)
            &&& forall|k: int|
                0 <= k < items@.len() ==> (#[trigger] items@[k]).0@ == shown_key(
                    all[page_offset(page, limit) + k].0@,
                    prefix@,
                ) && items@[k].1@ == all[page_offset(page, limit) + k].1@
        },
{
    let suffix = list_suffix(suffix);
    let filter = match filter {
        Some(f) => to_lowercase(f),
        None => String::new(),
    };
    if chars_of(suffix.as_str()).len() > 0 && settings.len() > 0 {
        let (items, total) = list_records(settings, suffix.as_str(), field, filter.as_str(), page, limit);
        Listing::Records { items, total }
    } else {
        let (items, total) = list_items(settings, prefix, filter.as_str(), page, limit);
        Listing::Items { items, total }
    }
}

/// Whether what an insertion asked for holds, given what the store
/// answered: `listed` is the number of settings found under the prefix
/// and `present` says whether the key is taken. An insertion whose
/// precondition is not met is refused, and the request ends there.
pub fn precondition_met(p: &Precondition, listed: usize, present: bool) -> (r: bool)
    ensures
        r == match *p {
            Precondition::Nothing => true,
            Precondition::NoneUnder(_) => listed == 0,
            Precondition::Absent(_) => !present,
        },
{
    match p {
        Precondition::Nothing => true,
        Precondition::NoneUnder(_) => listed == 0,
        Precondition::Absent(_) => !present,
    }
}

/// The method of a request.
#[derive(Debug, Clone, Copy, PartialEq, Eq, Structural)]
pub enum Verb {
    Get,
    Post,
    Patch,
    Delete,
    Other,
}

/// What a caller has to be allowed to do.
#[derive(Debug, Clone, Copy, PartialEq, Eq, Structural)]
pub enum Permission {
    SettingsList,
    SettingsUpdate,
    SettingsDelete,
}

/// The endpoints of the settings.
#[derive(Debug, Clone, Copy, PartialEq, Eq, Structural)]
pub enum Endpoint {
    /// List the settings by records or one by one.
    Group,
    /// List a page of the settings.
    List,
    /// Fetch settings by key and by prefix.
    Keys,
    /// Clear the setting named in the path.
    Clear,
    /// Apply a list of changes.
    Update,
}

/// The endpoint that a request goes to, by the path segment after the
/// root and the method; none for any other request.
pub open spec fn endpoint_of(segment: Option<Seq<char>>, verb: Verb) -> Option<Endpoint> {
    match (segment, verb) {
        (Some(s), Verb::Get) => if s == "group"@ {
            Some(Endpoint::Group)
        } else if s == "list"@ {
            Some(Endpoint::List)
        } else if s == "keys"@ {
            Some(Endpoint::Keys)
        } else {
            None
        },
        (Some(s), Verb::Delete) => if s.len() > 0 {
            Some(Endpoint::Clear)
        } else {
            None
        },
        (None, Verb::Post) => Some(Endpoint::Update),
        _ => None,
    }
}

/// The endpoint that a request goes to.
pub fn endpoint(segment: Option<&str>, verb: Verb) -> (r: Option<Endpoint>)
    ensures
        r == endpoint_of(opt_text(segment), verb),
{
    match (segment, verb) {
        (Some(s), Verb::Get) => if same_text(s, "group") {
            Some(Endpoint::Group)
        } else if same_text(s, "list") {
            Some(Endpoint::List)
        } else if same_text(s, "keys") {
            Some(Endpoint::Keys)
        } else {
            None
        },
        (Some(s), Verb::Delete) => if chars_of(s).len() > 0 {
            Some(Endpoint::Clear)
        } else {
            None
        },
        (None, Verb::Post) => Some(Endpoint::Update),
        _ => None,
    }
}

impl Endpoint {
    /// The permission that the endpoint asks for.
    pub open spec fn needs(self) -> Permission {
        match self {
            Endpoint::Group => Permission::SettingsList,
            Endpoint::List => Permission::SettingsList,
            Endpoint::Keys => Permission::SettingsList,
            Endpoint::Clear => Permission::SettingsDelete,
            Endpoint::Update => Permission::SettingsUpdate,
        }
    }

    /// The permission that the endpoint asks for.
    pub fn permission(&self) -> (r: Permission)
        ensures
            r == self.needs(),
    {
        match self {
            Endpoint::Group => Permission::SettingsList,
            Endpoint::List => Permission::SettingsList,
            Endpoint::Keys => Permission::SettingsList,
            Endpoint::Clear => Permission::SettingsDelete,
            Endpoint::Update => Permission::SettingsUpdate,
        }
    }

    /// Whether a caller with the permissions `granted` may use the
    /// endpoint.
    pub fn permitted(&self, granted: &Vec<Permission>) -> (r: bool)
        ensures
            r == granted@.contains(self.needs()),
    {
        let wanted = self.permission();
        let n = granted.len();
        let mut i: usize = 0;
        while i < n
            invariant
                i <= n,
                n == granted@.len(),
                wanted == self.needs(),
                forall|k: int| 0 <= k < i ==> granted@[k] != wanted,
            decreases n - i,
        {
            if granted[i] == wanted {
                return true;
            }
            i += 1;
        }
        false
    }
}

} // verus!
