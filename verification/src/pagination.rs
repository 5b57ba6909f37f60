//! Pagination bookkeeping for the remote vocabulary API.
//!
//! The remote API serves lists in pages; the first response carries the
//! server-reported total item count. The driver here decides how many
//! page requests are owed and accumulates the pages' results in server
//! order. The actual HTTP requests are made by the unverified front end,
//! which feeds each page into a [`Pager`].

use vstd::prelude::*;

verus! {

use vstd::arithmetic::div_mod::lemma_fundamental_div_mod;

/// How many page requests a fetch of `count` items makes at `page_size`
/// items per page: always the one request that reported the count, and
/// further requests only when the count reaches the page size — then
/// the total is `ceil(count / page_size)`.
pub open spec fn spec_total_requests(count: nat, page_size: nat) -> nat
    recommends
        page_size > 0,
{
    if count < page_size {
        1
    } else if count % page_size == 0 {
        count / page_size
    } else {
        count / page_size + 1
    }
}

/// The request count is exactly the ceiling of `count / page_size` once
/// a second page is owed at all: that many pages cover all `count`
/// items, and one page fewer would not.
pub proof fn lemma_request_count_is_ceil(count: nat, page_size: nat)
    requires
        page_size > 0,
        count >= page_size,
    ensures
        count <= spec_total_requests(count, page_size) * page_size,
        (spec_total_requests(count, page_size) - 1) * page_size < count,
{
    let q = count / page_size;
    let r = count % page_size;
    lemma_fundamental_div_mod(count as int, page_size as int);
    if r == 0 {
        assert(count == q * page_size);
        assert((q - 1) * page_size == q * page_size - page_size) by (nonlinear_arith);
    } else {
        assert(count == q * page_size + r);
        assert((q + 1) * page_size == q * page_size + page_size) by (nonlinear_arith);
    }
}

/// The request count never exceeds the item count once a second page is
/// owed; in particular it fits in `usize` whenever `count` does.
pub proof fn lemma_request_count_bound(count: nat, page_size: nat)
    requires
        page_size > 0,
        count >= page_size,
    ensures
        1 <= spec_total_requests(count, page_size) <= count,
{
    let q = count / page_size;
    lemma_fundamental_div_mod(count as int, page_size as int);
    if count % page_size == 0 {
        assert(q >= 1 && q <= count) by (nonlinear_arith)
            requires
                count == page_size * q + count % page_size,
                count % page_size == 0,
                page_size >= 1,
                count >= page_size,
        ;
    } else {
        assert(q + 1 >= 1 && q + 1 <= count) by (nonlinear_arith)
            requires
                count == page_size * q + count % page_size,
                0 < count % page_size < page_size,
                page_size >= 2,
                count >= page_size,
        ;
    }
}

/// Executable form of [`spec_total_requests`].
pub fn total_requests(count: usize, page_size: usize) -> (n: usize)
    requires
        page_size > 0,
    ensures
        n == spec_total_requests(count as nat, page_size as nat),
{
    if count < page_size {
        1
    } else {
        proof {
            lemma_request_count_bound(count as nat, page_size as nat);
        }
        let q: usize = count / page_size;
        if count % page_size == 0 {
            q
        } else {
            q + 1
        }
    }
}

/// State of one paginated fetch: the page size it was started with, the
/// total item count the server reported on page one, how many pages
/// have been received, and every item received so far, in server order.
pub struct Pager<T> {
    pub page_size: usize,
    pub total: usize,
    pub pages_fetched: usize,
    pub items: Vec<T>,
}

impl<T> Pager<T> {
    /// A pager is well formed once page one has been received and no
    /// pages beyond the owed number have been.
    pub open spec fn wf(self) -> bool {
        &&& self.page_size > 0
        &&& 1 <= self.pages_fetched
        &&& (self.pages_fetched as nat) <= self.requests_planned()
    }

    /// Total number of page requests this fetch makes.
    pub open spec fn requests_planned(self) -> nat {
        spec_total_requests(self.total as nat, self.page_size as nat)
    }

    /// Record page one: the server-reported `total` and the first page's
    /// results. One request has been issued at this point.
    pub fn start(page_size: usize, total: usize, first_page: Vec<T>) -> (p: Pager<T>)
        requires
            page_size > 0,
        ensures
            p.wf(),
            p.page_size == page_size,
            p.total == total,
            p.pages_fetched == 1,
            p.items@ == first_page@,
    {
        proof {
            if total >= page_size {
                lemma_request_count_bound(total as nat, page_size as nat);
            }
        }
        Pager { page_size, total, pages_fetched: 1, items: first_page }
    }

    /// Whether every owed page has been received. When the first page
    /// reported fewer items than the page size, this is already true.
    pub fn done(&self) -> (b: bool)
        requires
            self.wf(),
        ensures
            b == (self.pages_fetched as nat == self.requests_planned()),
    {
        let planned = total_requests(self.total, self.page_size);
        self.pages_fetched == planned
    }

    /// Number of the next page to request (pages are numbered from 1).
    pub fn next_page(&self) -> (n: usize)
        requires
            self.wf(),
            (self.pages_fetched as nat) < self.requests_planned(),
        ensures
            n == self.pages_fetched + 1,
    {
        proof {
            if self.total >= self.page_size {
                lemma_request_count_bound(self.total as nat, self.page_size as nat);
            }
        }
        self.pages_fetched + 1
    }

    /// Record one further page: its results are appended after
    /// everything received so far — concatenation in server order, with
    /// no item dropped, duplicated, or reordered.
    pub fn push_page(&mut self, mut page: Vec<T>)
        requires
            old(self).wf(),
            (old(self).pages_fetched as nat) < old(self).requests_planned(),
        ensures
            final(self).wf(),
            final(self).page_size == old(self).page_size,
            final(self).total == old(self).total,
            final(self).pages_fetched == old(self).pages_fetched + 1,
            final(self).items@ == old(self).items@ + page@,
    {
        proof {
            if self.total >= self.page_size {
                lemma_request_count_bound(self.total as nat, self.page_size as nat);
            }
        }
        self.items.append(&mut page);
        self.pages_fetched = self.pages_fetched + 1;
    }

    /// Hand out everything fetched, consuming the pager.
    pub fn into_items(self) -> (items: Vec<T>)
        ensures
            items@ == self.items@,
    {
        self.items
    }
}

} // verus!
