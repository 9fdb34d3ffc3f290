//! Validation of the properties of a sender identity.

use vstd::prelude::*;
use vstd::string::{StringExecFns, StringSliceAdditionalSpecFns};
use vstd::utf8::encode_utf8;

verus! {

/// The properties of an identity.
#[derive(Debug, Clone, Copy, PartialEq, Eq, Structural)]
pub enum Property {
    Id,
    Name,
    Email,
    ReplyTo,
    Bcc,
    TextSignature,
    HtmlSignature,
    MayDelete,
}

/// A property value.
#[derive(Debug, PartialEq, Eq)]
pub enum Value {
    Text(String),
    UnsignedInt(u64),
    Bool(bool),
    List(Vec<Value>),
    Object(Object),
    Null,
}

/// A set of properties with their values, in the order given.
#[derive(Debug, PartialEq, Eq)]
pub struct Object {
    pub properties: Vec<(Property, Value)>,
}

/// A value to set, or a patch of a part of one.
#[derive(Debug, PartialEq, Eq)]
pub enum MaybePatchValue {
    Value(Value),
    Patch(Vec<Property>, Value),
}

/// Why setting a property was refused.
#[derive(Debug, Clone, PartialEq, Eq)]
pub struct SetError {
    pub property: Property,
    pub description: String,
}

/// What validating one property came to.
#[derive(Debug, PartialEq, Eq)]
pub enum Validated {
    /// The value to store; `Value::Null` removes the property.
    Accepted(Value),
    /// An e-mail address that is acceptable once it has been sanitized.
    Sanitize(String),
    /// The value is refused.
    Refused(SetError),
}

/// Names and e-mail addresses are shorter than this, in bytes.
pub const NAME_LIMIT: usize = 255;

/// Signatures are shorter than this, in bytes.
pub const SIGNATURE_LIMIT: usize = 2048;

/// Length of a text in bytes.
pub open spec fn byte_len(s: String) -> nat {
    encode_utf8(s@).len()
}

/// A short text.
pub open spec fn short_text(v: Value) -> bool {
    v matches Value::Text(t) && byte_len(t) < NAME_LIMIT
}

/// The entry may stand in an address: an e-mail address or a name as
/// short text, or no name.
pub open spec fn entry_ok(entry: (Property, Value)) -> bool {
    ||| entry.0 is Email && short_text(entry.1)
    ||| entry.0 is Name && short_text(entry.1)
    ||| entry.0 is Name && entry.1 is Null
}

/// The value is an address: an object with an e-mail address and nothing
/// but e-mail addresses and names.
pub open spec fn valid_address(v: Value) -> bool {
    v matches Value::Object(o) && valid_object(o)
}

/// The refusal of `property` with the text `description`.
pub open spec fn refused(r: Validated, property: Property, description: Seq<char>) -> bool {
    r matches Validated::Refused(e) && e.property == property && e.description@ == description
}

/// What validating `value` for `property` comes to. `exists` says
/// whether the identity exists already: its e-mail address cannot be
/// changed.
pub open spec fn validation(property: Property, value: MaybePatchValue, exists: bool, r: Validated) -> bool {
    match value {
        MaybePatchValue::Value(Value::Text(t)) => {
            if property is Name && byte_len(t) < NAME_LIMIT {
                r == Validated::Accepted(Value::Text(t))
            } else if property is Email && !exists && byte_len(t) < NAME_LIMIT {
                r == Validated::Sanitize(t)
            } else if (property is TextSignature || property is HtmlSignature) && byte_len(t)
                < SIGNATURE_LIMIT {
                r == Validated::Accepted(Value::Text(t))
            } else {
                refused(r, property, "Field could not be set."@)
            }
        },
        MaybePatchValue::Value(Value::List(l)) => {
            if property is ReplyTo || property is Bcc {
                if forall|i: int| 0 <= i < l@.len() ==> valid_address(#[trigger] l@[i]) {
                    r == Validated::Accepted(Value::List(l))
                } else {
                    refused(r, property, "Invalid e-mail address object."@)
                }
            } else {
                refused(r, property, "Field could not be set."@)
            }
        },
        MaybePatchValue::Value(Value::Null) => {
            if property is Name || property is TextSignature || property is HtmlSignature
                || property is ReplyTo || property is Bcc {
                r == Validated::Accepted(Value::Null)
            } else {
                refused(r, property, "Field could not be set."@)
            }
        },
        _ => refused(r, property, "Field could not be set."@),
    }
}

/// Whether the entry may stand in an address.
pub fn is_entry_ok(entry: &(Property, Value)) -> (r: bool)
    ensures
        r == entry_ok(*entry),
{
    match entry.0 {
        Property::Email => match &entry.1 {
            Value::Text(t) => t.as_str().as_bytes().len() < NAME_LIMIT,
            _ => false,
        },
        Property::Name => match &entry.1 {
            Value::Text(t) => t.as_str().as_bytes().len() < NAME_LIMIT,
            Value::Null => true,
            _ => false,
        },
        _ => false,
    }
}

/// The object is an address.
pub open spec fn valid_object(o: Object) -> bool {
    &&& forall|i: int| 0 <= i < o.properties@.len() ==> entry_ok(#[trigger] o.properties@[i])
    &&& exists|i: int| 0 <= i < o.properties@.len() && (#[trigger] o.properties@[i]).0 is Email
}

/// Whether the object is an address.
pub fn is_valid_object(o: &Object) -> (r: bool)
    ensures
        r == valid_object(*o),
{
    let n = o.properties.len();
    let mut has_email = false;
    let mut i: usize = 0;
    while i < n
        invariant
            i <= n,
            n == o.properties@.len(),
            forall|k: int| 0 <= k < i ==> entry_ok(#[trigger] o.properties@[k]),
            has_email == exists|k: int| 0 <= k < i && (#[trigger] o.properties@[k]).0 is Email,
        decreases n - i,
    {
        if !is_entry_ok(&o.properties[i]) {
            return false;
        }
        if o.properties[i].0 == Property::Email {
            has_email = true;
        }
        proof {
            if o.properties@[i as int].0 is Email {
                assert(has_email);
            }
        }
        i += 1;
    }
    has_email
}

/// Whether the value is an address.
pub fn is_valid_address(v: &Value) -> (r: bool)
    ensures
        r == valid_address(*v),
{
    match v {
        Value::Object(o) => is_valid_object(o),
        _ => false,
    }
}

/// Whether every value of the list is an address.
pub fn all_addresses(l: &Vec<Value>) -> (r: bool)
    ensures
        r == forall|i: int| 0 <= i < l@.len() ==> valid_address(#[trigger] l@[i]),
{
    let n = l.len();
    let mut i: usize = 0;
    while i < n
        invariant
            i <= n,
            n == l@.len(),
            forall|k: int| 0 <= k < i ==> valid_address(#[trigger] l@[k]),
        decreases n - i,
    {
        if !is_valid_address(&l[i]) {
            return false;
        }
        i += 1;
    }
    true
}

/// The refusal of `property` with the text `description`.
pub fn refuse(property: Property, description: &str) -> (r: Validated)
    ensures
        refused(r, property, description@),
{
    Validated::Refused(SetError { property, description: String::from_str(description) })
}

/// Validates the value given for a property of an identity.
pub fn validate_identity_value(property: Property, value: MaybePatchValue, exists: bool) -> (r: Validated)
    ensures
        validation(property, value, exists, r),
{
    match value {
        MaybePatchValue::Value(Value::Text(t)) => {
            let len = t.as_str().as_bytes().len();
            match property {
                Property::Name => if len < NAME_LIMIT {
                    Validated::Accepted(Value::Text(t))
                } else {
                    refuse(property, "Field could not be set.")
                },
                Property::Email => if !exists && len < NAME_LIMIT {
                    Validated::Sanitize(t)
                } else {
                    refuse(property, "Field could not be set.")
                },
                Property::TextSignature | Property::HtmlSignature => if len < SIGNATURE_LIMIT {
                    Validated::Accepted(Value::Text(t))
                } else {
                    refuse(property, "Field could not be set.")
                },
                _ => refuse(property, "Field could not be set."),
            }
        },
        MaybePatchValue::Value(Value::List(l)) => {
            match property {
                Property::ReplyTo | Property::Bcc => if all_addresses(&l) {
                    Validated::Accepted(Value::List(l))
                } else {
                    refuse(property, "Invalid e-mail address object.")
                },
                _ => refuse(property, "Field could not be set."),
            }
        },
        MaybePatchValue::Value(Value::Null) => {
            match property {
                Property::Name
                | Property::TextSignature
                | Property::HtmlSignature
                | Property::ReplyTo
                | Property::Bcc => Validated::Accepted(Value::Null),
                _ => refuse(property, "Field could not be set."),
            }
        },
        _ => refuse(property, "Field could not be set."),
    }
}

/// What a sanitized e-mail address comes to: the address as text, or the
/// refusal of an address that could not be sanitized.
pub fn sanitized_email(outcome: Option<String>) -> (r: Validated)
    ensures
        match outcome {
            Some(address) => r == Validated::Accepted(Value::Text(address)),
            None => refused(r, Property::Email, "Invalid e-mail address."@),
        },
{
    match outcome {
        Some(address) => Validated::Accepted(Value::Text(address)),
        None => refuse(Property::Email, "Invalid e-mail address."),
    }
}

/// Position of the first entry for `property`, or the number of entries
/// where there is none.
pub open spec fn first_index(entries: Seq<(Property, Value)>, property: Property) -> int
    decreases entries.len(),
{
    if entries.len() == 0 {
        0
    } else if entries[0].0 == property {
        0
    } else {
        1 + first_index(entries.drop_first(), property)
    }
}

/// The first entry for a property comes before the end exactly when
/// there is an entry for it, and no entry before it is for the property.
pub proof fn lemma_first_index(entries: Seq<(Property, Value)>, property: Property)
    ensures
        0 <= first_index(entries, property) <= entries.len(),
        first_index(entries, property) < entries.len() ==> entries[first_index(
            entries,
            property,
        )].0 == property,
        forall|j: int|
            0 <= j < first_index(entries, property) ==> (#[trigger] entries[j]).0 != property,
    decreases entries.len(),
{
    if entries.len() > 0 && entries[0].0 != property {
        let rest = entries.drop_first();
        lemma_first_index(rest, property);
        assert forall|j: int| 0 <= j < first_index(entries, property) implies (#[trigger] entries[j]).0
            != property by {
            if j > 0 {
                assert(rest[j - 1] == entries[j]);
            }
        }
    }
}

/// The first entry for a property is at `at` when the entry there is for
/// it and none before is; it is past the end when no entry is for it.
pub proof fn lemma_first_index_at(entries: Seq<(Property, Value)>, property: Property, at: int)
    requires
        0 <= at <= entries.len(),
        forall|j: int| 0 <= j < at ==> (#[trigger] entries[j]).0 != property,
        at < entries.len() ==> entries[at].0 == property,
    ensures
        first_index(entries, property) == at,
    decreases entries.len(),
{
    if at > 0 {
        assert(entries[0].0 != property);
        let rest = entries.drop_first();
        assert forall|j: int| 0 <= j < at - 1 implies (#[trigger] rest[j]).0 != property by {
            assert(rest[j] == entries[j + 1]);
        }
        lemma_first_index_at(rest, property, at - 1);
    }
}

impl Object {
    /// No property has two entries.
    pub open spec fn wf(self) -> bool {
        forall|i: int, j: int|
            0 <= i < j < self.properties@.len() ==> (#[trigger] self.properties@[i]).0
                != (#[trigger] self.properties@[j]).0
    }

    /// The object has an entry for `property`.
    pub open spec fn has(self, property: Property) -> bool {
        first_index(self.properties@, property) < self.properties@.len()
    }

    /// The value of `property`; `Value::Null` where it has none.
    pub open spec fn value_of(self, property: Property) -> Value {
        if self.has(property) {
            self.properties@[first_index(self.properties@, property)].1
        } else {
            Value::Null
        }
    }

    /// An object without properties.
    pub fn new() -> (o: Object)
        ensures
            o.wf(),
            o.properties@.len() == 0,
    {
        Object { properties: Vec::new() }
    }

    /// Position of the entry for `property`, if there is one.
    pub fn position(&self, property: Property) -> (r: Option<usize>)
        ensures
            match r {
                Some(i) => i == first_index(self.properties@, property) && self.has(property),
                None => !self.has(property),
            },
    {
        let n = self.properties.len();
        let mut i: usize = 0;
        while i < n
            invariant
                i <= n,
                n == self.properties@.len(),
                forall|k: int| 0 <= k < i ==> (#[trigger] self.properties@[k]).0 != property,
            decreases n - i,
        {
            if self.properties[i].0 == property {
                proof {
                    lemma_first_index_at(self.properties@, property, i as int);
                }
                return Some(i);
            }
            i += 1;
        }
        proof {
            lemma_first_index_at(self.properties@, property, n as int);
        }
        None
    }

    /// The value of `property`, where the object has an entry for it.
    pub fn get(&self, property: Property) -> (r: Option<&Value>)
        ensures
            match r {
                Some(v) => self.has(property) && *v == self.value_of(property),
                None => !self.has(property),
            },
    {
        match self.position(property) {
            Some(i) => Some(&self.properties[i].1),
            None => None,
        }
    }

    /// Gives `property` the value `value`: in place where the object has
    /// an entry for it, else in a new entry at the end.
    pub fn set(&mut self, property: Property, value: Value)
        ensures
            old(self).wf() ==> final(self).wf(),
            final(self).properties@.len() <= old(self).properties@.len() + 1,
            final(self).has(property),
            final(self).value_of(property) == value,
            forall|q: Property|
                q != property ==> final(self).has(q) == old(self).has(q) && final(self).value_of(q)
                    == old(self).value_of(q),
    {
        let ghost before = self.properties@;
        match self.position(property) {
            Some(i) => {
                self.properties[i].1 = value;
                proof {
                    let after = self.properties@;
                    lemma_first_index(before, property);
                    lemma_first_index_at(after, property, i as int);
                    assert forall|q: Property| q != property implies self.has(q) == old(self).has(q)
                        && self.value_of(q) == old(self).value_of(q) by {
                        lemma_first_index(before, q);
                        lemma_first_index_at(after, q, first_index(before, q));
                    }
                }
            },
            None => {
                self.properties.push((property, value));
                proof {
                    let after = self.properties@;
                    lemma_first_index(before, property);
                    lemma_first_index_at(after, property, before.len() as int);
                    assert forall|q: Property| q != property implies self.has(q) == old(self).has(q)
                        && self.value_of(q) == old(self).value_of(q) by {
                        lemma_first_index(before, q);
                        lemma_first_index_at(
                            after,
                            q,
                            if first_index(before, q) < before.len() {
                                first_index(before, q)
                            } else {
                                after.len() as int
                            },
                        );
                    }
                }
            },
        }
    }

    /// Takes every entry for `property` out.
    pub fn remove(&mut self, property: Property)
        ensures
            old(self).wf() ==> final(self).wf(),
            !final(self).has(property),
            forall|q: Property|
                q != property ==> final(self).has(q) == old(self).has(q) && final(self).value_of(q)
                    == old(self).value_of(q),
    {
        let mut more = self.remove_first(property);
        while more
            invariant
                old(self).wf() ==> self.wf(),
                !more ==> !self.has(property),
                forall|q: Property|
                    q != property ==> self.has(q) == old(self).has(q) && self.value_of(q) == old(
                        self,
                    ).value_of(q),
            decreases
                    self.properties@.len() + if more {
                        1int
                    } else {
                        0int
                    },
        {
            more = self.remove_first(property);
        }
    }

    /// Takes the first entry for `property` out and reports whether there
    /// was one.
    pub fn remove_first(&mut self, property: Property) -> (found: bool)
        ensures
            old(self).wf() ==> final(self).wf(),
            found == old(self).has(property),
            found ==> final(self).properties@.len() + 1 == old(self).properties@.len(),
            !found ==> final(self).properties == old(self).properties,
            forall|q: Property|
                q != property ==> final(self).has(q) == old(self).has(q) && final(self).value_of(q)
                    == old(self).value_of(q),
    {
        let ghost before = self.properties@;
        match self.position(property) {
            Some(i) => {
                self.properties.remove(i);
                proof {
                    let after = self.properties@;
                    lemma_first_index(before, property);
                    if old(self).wf() {
                        assert forall|a: int, b: int| 0 <= a < b < after.len() implies (
                        #[trigger] after[a]).0 != (#[trigger] after[b]).0 by {
                            let a0 = if a < i {
                                a
                            } else {
                                a + 1
                            };
                            let b0 = if b < i {
                                b
                            } else {
                                b + 1
                            };
                            assert(after[a] == before[a0]);
                            assert(after[b] == before[b0]);
                        }
                    }
                    assert forall|q: Property| q != property implies self.has(q) == old(self).has(q)
                        && self.value_of(q) == old(self).value_of(q) by {
                        lemma_first_index(before, q);
                        let at = first_index(before, q);
                        let to = if at < i {
                            at
                        } else {
                            at - 1
                        };
                        assert forall|j: int| 0 <= j < to implies (#[trigger] after[j]).0 != q by {
                            if j < i {
                                assert(after[j] == before[j]);
                            } else {
                                assert(after[j] == before[j + 1]);
                            }
                        }
                        if at < before.len() {
                            assert(after[to] == before[at]);
                        }
                        lemma_first_index_at(after, q, to);
                    }
                }
                true
            },
            None => false,
        }
    }

    /// The e-mail address of the identity, where it has one.
    pub fn email(&self) -> (r: Option<&String>)
        ensures
            match self.value_of(Property::Email) {
                Value::Text(t) => r == Some(&t),
                _ => r is None,
            },
    {
        match self.get(Property::Email) {
            Some(Value::Text(t)) => Some(t),
            _ => None,
        }
    }
}

impl Object {
    /// Puts a validated value in its place. `Value::Null` stands for no
    /// value: it takes an existing entry out and adds nothing to a new
    /// object.
    pub fn apply(&mut self, property: Property, value: Value, updating: bool)
        ensures
            old(self).wf() ==> final(self).wf(),
            forall|q: Property|
                q != property ==> final(self).has(q) == old(self).has(q) && final(self).value_of(q)
                    == old(self).value_of(q),
            if !(value is Null) {
                final(self).has(property) && final(self).value_of(property) == value
            } else if updating {
                !final(self).has(property)
            } else {
                final(self).properties == old(self).properties
            },
    {
        match value {
            Value::Null => {
                if updating {
                    self.remove(property);
                }
            },
            other => {
                self.set(property, other);
            },
        }
    }

    /// The e-mail address that a new identity must have.
    pub fn require_email(&self) -> (r: Result<&String, SetError>)
        ensures
            match self.value_of(Property::Email) {
                Value::Text(t) => r == Ok::<&String, SetError>(&t),
                _ => r matches Err(e) && e.property == Property::Email && e.description@
                    == "Missing e-mail address."@,
            },
    {
        match self.email() {
            Some(address) => Ok(address),
            None => Err(
                SetError {
                    property: Property::Email,
                    description: String::from_str("Missing e-mail address."),
                },
            ),
        }
    }
}

impl Object {
    /// Whether no property has two entries.
    pub fn is_wf(&self) -> (r: bool)
        ensures
            r == self.wf(),
    {
        let n = self.properties.len();
        let mut j: usize = 0;
        while j < n
            invariant
                j <= n,
                n == self.properties@.len(),
                forall|a: int, b: int|
                    0 <= a < b < j ==> (#[trigger] self.properties@[a]).0
                        != (#[trigger] self.properties@[b]).0,
            decreases n - j,
        {
            let mut i: usize = 0;
            while i < j
                invariant
                    i <= j < n,
                    n == self.properties@.len(),
                    forall|a: int| 0 <= a < i ==> (#[trigger] self.properties@[a]).0
                        != self.properties@[j as int].0,
                decreases j - i,
            {
                if self.properties[i].0 == self.properties[j].0 {
                    return false;
                }
                i += 1;
            }
            j += 1;
        }
        true
    }
}

/// Whether `ids` holds `id`.
pub fn holds_id(ids: &Vec<u32>, id: u32) -> (r: bool)
    ensures
        r == ids@.contains(id),
{
    let n = ids.len();
    let mut i: usize = 0;
    while i < n
        invariant
            i <= n,
            n == ids@.len(),
            forall|k: int| 0 <= k < i ==> ids@[k] != id,
        decreases n - i,
    {
        if ids[i] == id {
            return true;
        }
        i += 1;
    }
    false
}

/// Whether the identity `id` may be updated: not where the same request
/// asks for it to be destroyed.
pub fn update_admitted(id: u32, will_destroy: &Vec<u32>) -> (r: bool)
    ensures
        r == !will_destroy@.contains(id),
{
    !holds_id(will_destroy, id)
}

/// Whether the identity `id`, which is to be destroyed, is among the
/// known ones; one that is not is reported as not found.
pub fn destroy_found(id: u32, known: &Vec<u32>) -> (r: bool)
    ensures
        r == known@.contains(id),
{
    holds_id(known, id)
}

/// A new identity is admitted with its e-mail address where that
/// address is configured for the account; else it is refused.
pub fn email_admitted(configured: bool) -> (r: Result<(), SetError>)
    ensures
        configured ==> r is Ok,
        !configured ==> (r matches Err(e) && e.property == Property::Email && e.description@
            == "E-mail address not configured for this account."@),
{
    if configured {
        Ok(())
    } else {
        Err(
            SetError {
                property: Property::Email,
                description: String::from_str("E-mail address not configured for this account."),
            },
        )
    }
}

/// Whether a request changed the identities of the account, so that the
/// account gets a new state: it did where anything was created, updated
/// or destroyed.
pub fn state_changed(created: usize, updated: usize, destroyed: usize) -> (r: bool)
    ensures
        r == (created > 0 || updated > 0 || destroyed > 0),
{
    created > 0 || updated > 0 || destroyed > 0
}

} // verus!
