//! Pagination of listings: which of the matching entries belong on the
//! requested page, and how many matched in all.

use vstd::prelude::*;

verus! {

/// Number of matches that precede page `page` when a page holds `limit`
/// entries. Pages count from one; page zero is the first page too.
pub open spec fn page_offset(page: usize, limit: usize) -> int {
    if page <= 1 {
        0
    } else {
        (page - 1) * limit
    }
}

/// The match with index `idx` belongs on the page that starts after
/// `skip` matches and holds `limit` entries; a limit of zero is no limit.
pub open spec fn on_page(skip: int, limit: int, idx: int) -> bool {
    skip <= idx && (limit == 0 || idx < skip + limit)
}

/// How many of the first `total` matches belong on the page.
pub open spec fn page_len(skip: int, limit: int, total: int) -> int {
    if total <= skip {
        0
    } else if limit == 0 || total - skip < limit {
        total - skip
    } else {
        limit
    }
}

/// How many of the matches with an index below `n` are on the page.
pub open spec fn count_on_page(skip: int, limit: int, n: int) -> int
    decreases n,
{
    if n <= 0 {
        0
    } else {
        count_on_page(skip, limit, n - 1) + if on_page(skip, limit, n - 1) {
            1int
        } else {
            0int
        }
    }
}

/// Walks over the matches of a listing, one call of `offer` per match.
#[derive(Debug, Clone, Copy, PartialEq, Eq, Structural)]
pub struct Pager {
    /// Matches that precede the page.
    pub skip: usize,
    /// Entries on a page; zero for no limit.
    pub limit: usize,
    /// Matches seen so far.
    pub total: usize,
    /// Matches placed on the page so far.
    pub returned: usize,
}

impl Pager {
    /// The counters agree with the matches seen so far.
    pub open spec fn wf(self) -> bool {
        self.returned == page_len(self.skip as int, self.limit as int, self.total as int)
    }

    /// A pager for page `page` with `limit` entries to a page.
    pub fn new(page: usize, limit: usize) -> (p: Pager)
        requires
            page_offset(page, limit) <= usize::MAX,
        ensures
            p == (Pager { skip: page_offset(page, limit) as usize, limit, total: 0, returned: 0 }),
            p.wf(),
    {
        let skip = if page <= 1 {
            0
        } else {
            (page - 1) * limit
        };
        Pager { skip, limit, total: 0, returned: 0 }
    }

    /// As `new`, for any page and limit: `None` where the page lies
    /// beyond what can be counted.
    pub fn checked(page: usize, limit: usize) -> (r: Option<Pager>)
        ensures
            page_offset(page, limit) <= usize::MAX ==> r == Some(
                Pager { skip: page_offset(page, limit) as usize, limit, total: 0, returned: 0 },
            ),
            page_offset(page, limit) > usize::MAX ==> r is None,
    {
        if page <= 1 {
            return Some(Pager::new(page, limit));
        }
        match (page - 1).checked_mul(limit) {
            Some(_) => Some(Pager::new(page, limit)),
            None => None,
        }
    }

    /// Counts one more match and says whether it belongs on the page.
    pub fn offer(&mut self) -> (take: bool)
        requires
            old(self).wf(),
            old(self).total < usize::MAX,
        ensures
            final(self).wf(),
            final(self).skip == old(self).skip,
            final(self).limit == old(self).limit,
            final(self).total == old(self).total + 1,
            take == on_page(old(self).skip as int, old(self).limit as int, old(self).total as int),
            final(self).returned == old(self).returned + if take {
                1int
            } else {
                0int
            },
    {
        let idx = self.total;
        self.total = self.total + 1;
        if idx >= self.skip && (self.limit == 0 || idx - self.skip < self.limit) {
            self.returned = self.returned + 1;
            true
        } else {
            false
        }
    }
}

/// Whether the match with index `idx` belongs on page `page` of `limit`
/// entries.
pub fn on_page_at(page: usize, limit: usize, idx: usize) -> (r: bool)
    ensures
        r == on_page(page_offset(page, limit), limit as int, idx as int),
{
    match Pager::checked(page, limit) {
        Some(p) => idx >= p.skip && (p.limit == 0 || idx - p.skip < p.limit),
        None => false,
    }
}

/// The entries of `items` that belong on page `page`, with the number of
/// entries in all.
pub fn paginate<T>(items: Vec<T>, page: usize, limit: usize) -> (r: (Vec<T>, usize))
    requires
        page_offset(page, limit) <= usize::MAX,
    ensures
        r.1 == items@.len(),
        r.0@.len() == page_len(page_offset(page, limit), limit as int, items@.len() as int),
        forall|k: int|
            0 <= k < r.0@.len() ==> #[trigger] r.0@[k] == items@[page_offset(page, limit) + k],
{
    let total = items.len();
    let skip = if page <= 1 {
        0
    } else {
        (page - 1) * limit
    };
    let mut items = items;
    let end = if skip >= total {
        skip
    } else if limit == 0 || total - skip < limit {
        total
    } else {
        skip + limit
    };
    if skip >= total {
        items.truncate(0);
        return (items, total);
    }
    items.truncate(end);
    let page_items = items.split_off(skip);
    (page_items, total)
}

/// The page holds exactly the matches that `on_page` admits: of the first
/// `n` matches, `page_len` are on the page.
pub proof fn lemma_page_len(skip: int, limit: int, n: int)
    requires
        0 <= skip,
        0 <= limit,
        0 <= n,
    ensures
        count_on_page(skip, limit, n) == page_len(skip, limit, n),
    decreases n,
{
    if n > 0 {
        lemma_page_len(skip, limit, n - 1);
    }
}

} // verus!
