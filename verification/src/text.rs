//! Small text helpers shared by the filters and the identifier parsers.

use vstd::prelude::*;

verus! {

/// `needle` occurs in `hay` as a contiguous run of characters.
pub open spec fn occurs_in(hay: Seq<char>, needle: Seq<char>) -> bool {
    exists|i: int|
        0 <= i && i + needle.len() <= hay.len() && #[trigger] hay.subrange(i, i + needle.len())
            == needle
}

/// The text behind an optional filter.
pub open spec fn opt_text(filter: Option<&str>) -> Option<Seq<char>> {
    match filter {
        Some(f) => Some(f@),
        None => None,
    }
}

/// An absent filter admits everything; a present one admits the texts it
/// occurs in.
pub open spec fn admits(filter: Option<Seq<char>>, text: Seq<char>) -> bool {
    match filter {
        Some(f) => occurs_in(text, f),
        None => true,
    }
}

/// Whether `needle` occurs in `hay`.
pub fn contains(hay: &str, needle: &str) -> (r: bool)
    ensures
        r == occurs_in(hay@, needle@),
{
    let v = chars_of(hay);
    let w = chars_of(needle);
    if w.len() > v.len() {
        return false;
    }
    let last = v.len() - w.len();
    let mut i: usize = 0;
    while i < last
        invariant
            i <= last,
            last == v@.len() - w@.len(),
            v@.len() <= usize::MAX,
            v@ == hay@,
            w@ == needle@,
            forall|k: int| 0 <= k < i ==> #[trigger] v@.subrange(k, k + w@.len()) != w@,
        decreases last - i,
    {
        if matches_at(&v, i, &w) {
            return true;
        }
        i += 1;
    }
    matches_at(&v, last, &w)
}

/// Whether `text` passes the optional substring filter.
pub fn passes(filter: Option<&str>, text: &str) -> (r: bool)
    ensures
        r == admits(opt_text(filter), text@),
{
    match filter {
        Some(f) => contains(text, f),
        None => true,
    }
}

/// The characters of `s`, in order.
pub fn chars_of(s: &str) -> (v: Vec<char>)
    ensures
        v@ == s@,
{
    let mut v: Vec<char> = Vec::new();
    for c in it: s.chars()
        invariant
            v@ == it.seq().take(it.index() as int),
            it.seq() == s@,
    {
        v.push(c);
    }
    v
}

/// Appends one character, by `String::push` of the standard library.
#[verifier::external_body]
pub(crate) fn push_char(s: &mut String, c: char)
    ensures
        final(s)@ == old(s)@.push(c),
{
    s.push(c)
}

/// The string made of the characters `v[from..to]`.
pub fn string_of(v: &Vec<char>, from: usize, to: usize) -> (s: String)
    requires
        from <= to <= v@.len(),
    ensures
        s@ == v@.subrange(from as int, to as int),
{
    let mut s = String::new();
    let mut i: usize = from;
    while i < to
        invariant
            from <= i <= to,
            to <= v@.len(),
            s@ == v@.subrange(from as int, i as int),
        decreases to - i,
    {
        push_char(&mut s, v[i]);
        proof {
            assert(v@.subrange(from as int, i + 1) == v@.subrange(from as int, i as int).push(
                v@[i as int],
            ));
        }
        i += 1;
    }
    s
}

/// `text` without the leading `prefix`; nothing where it does not start
/// with it.
pub open spec fn without_prefix(text: Seq<char>, prefix: Seq<char>) -> Option<Seq<char>> {
    if prefix.len() <= text.len() && text.take(prefix.len() as int) == prefix {
        Some(text.skip(prefix.len() as int))
    } else {
        None
    }
}

/// `text` without the trailing `suffix`; nothing where it does not end
/// with it.
pub open spec fn without_suffix(text: Seq<char>, suffix: Seq<char>) -> Option<Seq<char>> {
    if suffix.len() <= text.len() && text.skip(text.len() - suffix.len()) == suffix {
        Some(text.take(text.len() - suffix.len()))
    } else {
        None
    }
}

/// What `str::to_lowercase` of the standard library makes of a text.
pub uninterp spec fn lowercase(text: Seq<char>) -> Seq<char>;

/// The text in lower case, by `str::to_lowercase` of the standard
/// library, which goes by the Unicode tables; the contract only names
/// its result.
#[verifier::external_body]
pub(crate) fn to_lowercase(text: &str) -> (r: String)
    ensures
        r@ == lowercase(text@),
{
    text.to_lowercase()
}

/// Whether `v[at..]` starts with `w`.
pub fn matches_at(v: &Vec<char>, at: usize, w: &Vec<char>) -> (r: bool)
    requires
        at <= v@.len(),
    ensures
        r == (w@.len() <= v@.len() - at && v@.subrange(at as int, at + w@.len()) == w@),
{
    let n = w.len();
    if n > v.len() - at {
        return false;
    }
    let mut i: usize = 0;
    while i < n
        invariant
            i <= n,
            n == w@.len(),
            at + n <= v@.len(),
            v@.len() <= usize::MAX,
            forall|k: int| 0 <= k < i ==> v@[at + k] == w@[k],
        decreases n - i,
    {
        if v[at + i] != w[i] {
            proof {
                assert(v@.subrange(at as int, at + n)[i as int] == v@[at + i]);
            }
            return false;
        }
        i += 1;
    }
    proof {
        assert(v@.subrange(at as int, at + n) =~= w@);
    }
    true
}

/// `text` without the leading `prefix`, where it starts with it.
pub fn strip_prefix(text: &str, prefix: &str) -> (r: Option<String>)
    ensures
        match without_prefix(text@, prefix@) {
            Some(rest) => r matches Some(s) && s@ == rest,
            None => r is None,
        },
{
    let v = chars_of(text);
    let w = chars_of(prefix);
    proof {
        if w@.len() <= v@.len() {
            assert(v@.take(w@.len() as int) =~= v@.subrange(0, 0 + w@.len() as int));
        }
    }
    if matches_at(&v, 0, &w) {
        let s = string_of(&v, w.len(), v.len());
        proof {
            assert(v@.skip(w@.len() as int) =~= v@.subrange(w@.len() as int, v@.len() as int));
        }
        Some(s)
    } else {
        None
    }
}

/// `text` without the trailing `suffix`, where it ends with it.
pub fn strip_suffix(text: &str, suffix: &str) -> (r: Option<String>)
    ensures
        match without_suffix(text@, suffix@) {
            Some(rest) => r matches Some(s) && s@ == rest,
            None => r is None,
        },
{
    let v = chars_of(text);
    let w = chars_of(suffix);
    if w.len() > v.len() {
        return None;
    }
    let at = v.len() - w.len();
    proof {
        assert(v@.skip(at as int) =~= v@.subrange(at as int, at + w@.len()));
    }
    if matches_at(&v, at, &w) {
        let s = string_of(&v, 0, at);
        proof {
            assert(v@.take(at as int) =~= v@.subrange(0, at as int));
        }
        Some(s)
    } else {
        None
    }
}

/// Whether two texts are the same.
pub fn same_text(a: &str, b: &str) -> (r: bool)
    ensures
        r == (a@ == b@),
{
    let x = chars_of(a);
    let y = chars_of(b);
    if x.len() != y.len() {
        return false;
    }
    let n = x.len();
    let mut i: usize = 0;
    while i < n
        invariant
            i <= n,
            n == x@.len(),
            n == y@.len(),
            x@ == a@,
            y@ == b@,
            forall|k: int| 0 <= k < i ==> x@[k] == y@[k],
        decreases n - i,
    {
        if x[i] != y[i] {
            return false;
        }
        i += 1;
    }
    proof {
        assert(x@ =~= y@);
    }
    true
}

} // verus!
