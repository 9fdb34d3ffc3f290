//! Narrowing a query for principals: each condition of the filter asks
//! the directory for at most one principal, and the selection is cut down
//! to the principals that every condition allows.

use vstd::prelude::*;

verus! {

/// A condition on principals.
#[derive(Debug, Clone, PartialEq, Eq)]
pub enum Filter {
    Name(String),
    Email(String),
    Type(String),
    /// A condition of another kind, by its name.
    Other(String),
}

/// What a condition asks of the directory.
#[derive(Debug, Clone, PartialEq, Eq)]
pub enum Lookup {
    /// The principal with this name.
    ByName(String),
    /// The principal with this e-mail address.
    ByEmail(String),
    /// Nothing: the condition does not narrow the selection.
    Skip,
}

/// A condition that cannot be used on principals, by its name.
#[derive(Debug, Clone, PartialEq, Eq)]
pub struct UnsupportedFilter {
    pub details: String,
}

/// The principals selected so far.
#[derive(Debug, Clone, Copy, PartialEq, Eq, Structural)]
pub enum Selection {
    /// No condition has narrowed the selection: every principal.
    All,
    /// One principal.
    Only(u32),
    /// No principal.
    Nothing,
}

/// The principals that a lookup found.
pub open spec fn found_set(found: Option<u32>) -> Set<u32> {
    match found {
        Some(id) => set![id],
        None => Set::empty(),
    }
}

impl Selection {
    /// The selected principals.
    pub open spec fn members(self) -> Set<u32> {
        match self {
            Selection::All => Set::full(),
            Selection::Only(id) => set![id],
            Selection::Nothing => Set::empty(),
        }
    }

    /// The selection before any condition.
    pub fn new() -> (s: Selection)
        ensures
            s == Selection::All,
    {
        Selection::All
    }

    /// The selection cut down to what a lookup found.
    pub fn narrow(self, found: Option<u32>) -> (s: Selection)
        ensures
            s.members() == self.members().intersect(found_set(found)),
            !(s is All),
            s == narrowed(self, found),
    {
        let s = match (self, found) {
            (Selection::All, Some(id)) => Selection::Only(id),
            (Selection::Only(x), Some(id)) => if x == id {
                Selection::Only(id)
            } else {
                Selection::Nothing
            },
            _ => Selection::Nothing,
        };
        proof {
            assert(s.members() =~= self.members().intersect(found_set(found)));
        }
        s
    }

    /// Whether the selection still stands for every principal, so that
    /// the identifiers of all principals have to be fetched.
    pub fn is_all(&self) -> (r: bool)
        ensures
            r == (*self is All),
    {
        match self {
            Selection::All => true,
            _ => false,
        }
    }

    /// Whether the principal `id` is selected.
    pub fn contains(&self, id: u32) -> (r: bool)
        ensures
            r == self.members().contains(id),
    {
        match self {
            Selection::All => true,
            Selection::Only(x) => *x == id,
            Selection::Nothing => false,
        }
    }
}

impl Filter {
    /// What the condition asks of the directory. A condition on the type
    /// asks nothing; a condition of another kind is refused.
    pub fn lookup(self) -> (r: Result<Lookup, UnsupportedFilter>)
        ensures
            r == match self {
                Filter::Name(name) => Ok::<Lookup, UnsupportedFilter>(Lookup::ByName(name)),
                Filter::Email(email) => Ok(Lookup::ByEmail(email)),
                Filter::Type(_) => Ok(Lookup::Skip),
                Filter::Other(details) => Err(UnsupportedFilter { details }),
            },
    {
        match self {
            Filter::Name(name) => Ok(Lookup::ByName(name)),
            Filter::Email(email) => Ok(Lookup::ByEmail(email)),
            Filter::Type(_) => Ok(Lookup::Skip),
            Filter::Other(details) => Err(UnsupportedFilter { details }),
        }
    }
}

/// Narrowing is order-independent and repeating a lookup changes
/// nothing: the selection is the set of principals that every lookup
/// found.
pub proof fn lemma_narrow_commutes(s: Selection, a: Option<u32>, b: Option<u32>)
    ensures
        narrowed(narrowed(s, a), b) == narrowed(narrowed(s, b), a),
        narrowed(narrowed(s, a), a) == narrowed(s, a),
{
}

/// The selection cut down to what a lookup found.
pub open spec fn narrowed(s: Selection, found: Option<u32>) -> Selection {
    match (s, found) {
        (Selection::All, Some(id)) => Selection::Only(id),
        (Selection::Only(x), Some(id)) if x == id => Selection::Only(id),
        _ => Selection::Nothing,
    }
}

} // verus!
