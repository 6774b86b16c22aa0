use vstd::prelude::*;

verus! {

/// Number of items on a page when no limit is given.
pub const DEFAULT_PAGE_SIZE: u32 = 5;

/// Largest number of items on a page.
pub const MAX_PAGE_SIZE: u32 = 100;

/// A page request: a 1-indexed page number (0 also means the first page)
/// and an optional number of items per page.
pub struct Paginator {
    pub page: u32,
    pub limit: Option<u32>,
}

impl Default for Paginator {
    fn default() -> (r: Self)
        ensures
            r.page == 0,
            r.limit is None,
    {
        Paginator { page: 0, limit: None }
    }
}

/// The effective page number.
pub open spec fn page_of(page: u32) -> nat {
    if page == 0 { 1 } else { page as nat }
}

/// The effective number of items per page.
pub open spec fn limit_of(limit: Option<u32>) -> nat {
    match limit {
        Some(l) => if l > MAX_PAGE_SIZE { MAX_PAGE_SIZE as nat } else { l as nat },
        None => DEFAULT_PAGE_SIZE as nat,
    }
}

/// The number of items before the requested page.
pub open spec fn skip_of(page: u32, limit: Option<u32>) -> nat {
    ((page_of(page) - 1) * limit_of(limit)) as nat
}

/// The items of `all` on the page that starts after `skip` items and holds at
/// most `limit` of them.
pub open spec fn window<A>(all: Seq<A>, skip: nat, limit: nat) -> Seq<A> {
    if skip >= all.len() {
        Seq::empty()
    } else if skip + limit >= all.len() {
        all.subrange(skip as int, all.len() as int)
    } else {
        all.subrange(skip as int, (skip + limit) as int)
    }
}

impl Paginator {
    pub open spec fn spec_skip(&self) -> nat {
        skip_of(self.page, self.limit)
    }

    pub open spec fn spec_limit(&self) -> nat {
        limit_of(self.limit)
    }

    /// The page number, at least 1.
    pub fn page(&self) -> (r: u32)
        ensures
            r == page_of(self.page),
    {
        if self.page < 1 { 1 } else { self.page }
    }

    /// The number of items per page: the default when none is given, and
    /// never more than the maximum. A limit of 0 is kept, and gives empty pages.
    pub fn limit(&self) -> (r: usize)
        ensures
            r == limit_of(self.limit),
    {
        let limit = match self.limit {
            Some(l) => l,
            None => DEFAULT_PAGE_SIZE,
        };
        if limit > MAX_PAGE_SIZE { MAX_PAGE_SIZE as usize } else { limit as usize }
    }

    /// The number of items that come before the page; where that number
    /// exceeds the address space it is clamped, which still gives an empty page.
    pub fn skip(&self) -> (r: usize)
        ensures
            skip_of(self.page, self.limit) <= usize::MAX ==> r == (page_of(self.page) - 1)
                * limit_of(self.limit),
            r == (if skip_of(self.page, self.limit) <= usize::MAX {
                skip_of(self.page, self.limit)
            } else {
                usize::MAX as nat
            }),
    {
        let p = (self.page() - 1) as usize;
        let l = self.limit();
        match p.checked_mul(l) {
            Some(s) => s,
            None => usize::MAX,
        }
    }
}

/// Two consecutive pages of one size, joined, are the one page of twice that
/// size that starts where the first does.
pub proof fn lemma_consecutive_pages<A>(all: Seq<A>, skip: nat, limit: nat)
    ensures
        window(all, skip, limit) + window(all, skip + limit, limit) == window(
            all,
            skip,
            2 * limit,
        ),
{
    assert(window(all, skip, limit) + window(all, skip + limit, limit) =~= window(
        all,
        skip,
        2 * limit,
    ));
}

/// A page holds at most `limit` items, and `limit` never exceeds the
/// maximum; the page starts after (page - 1) * limit items.
pub proof fn lemma_page_bounds<A>(all: Seq<A>, p: Paginator)
    ensures
        window(all, p.spec_skip(), p.spec_limit()).len() <= p.spec_limit(),
        p.spec_limit() <= MAX_PAGE_SIZE,
        p.spec_limit() >= 1 || p.limit == Some(0u32),
        p.spec_skip() == (page_of(p.page) - 1) * p.spec_limit(),
{
    assert((page_of(p.page) - 1) * limit_of(p.limit) >= 0) by (nonlinear_arith)
        requires page_of(p.page) >= 1;
}

} // verus!
