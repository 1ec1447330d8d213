//! Gathering every child of a remote directory, one page at a time.
//!
//! The remote service answers a listing request with one page and the total
//! number of children. A [`Pager`] keeps what has arrived and says which page
//! to ask for next; the caller performs the requests. Pages are asked for one
//! after another, never side by side.

use vstd::prelude::*;
use crate::entry::{decode_entry, decoded, DecodeError, EntryView, RawEntry, RemoteEntry};

verus! {

/// One answer of the remote service to a listing request.
#[derive(Debug, PartialEq, Eq)]
pub struct Page {
    /// How many children the directory has over all pages.
    pub total_count: usize,
    /// The children on this page.
    pub entries: Vec<RemoteEntry>,
}

/// The mathematical content of a [`Page`].
pub struct PageView {
    pub total_count: nat,
    pub entries: Seq<EntryView>,
}

impl View for Page {
    type V = PageView;

    open spec fn view(&self) -> PageView {
        PageView { total_count: self.total_count as nat, entries: self.entries.deep_view() }
    }
}

/// Whether the first `n` of `rows` can all be understood.
pub open spec fn rows_decode(rows: Seq<RawEntry>, n: int) -> bool {
    forall|i: int| 0 <= i < n ==> (#[trigger] decoded(rows[i]@)) is Ok
}

/// Turns the rows of one answer into a page. The page holds the decoded
/// rows in their order. A row that cannot be understood spoils the whole
/// answer: the error is that of the first such row.
pub fn decode_page(total_count: usize, rows: Vec<RawEntry>) -> (r: Result<Page, DecodeError>)
    ensures
        match r {
            Ok(page) => {
                &&& page@.total_count == total_count
                &&& page@.entries.len() == rows.len()
                &&& forall|i: int|
                    0 <= i < rows.len() ==> decoded(#[trigger] rows[i]@) == Ok::<
                        EntryView,
                        DecodeError,
                    >(page@.entries[i])
            },
            Err(e) => exists|i: int|
                0 <= i < rows.len() && rows_decode(rows@, i) && #[trigger] decoded(rows[i]@)
                    == Err::<EntryView, DecodeError>(e),
        },
{
    let ghost raw = rows@;
    let mut entries: Vec<RemoteEntry> = Vec::new();
    for row in it: rows
        invariant
            it.seq() == raw,
            entries.len() == it.index(),
            forall|i: int|
                0 <= i < it.index() ==> decoded(#[trigger] raw[i]@) == Ok::<
                    EntryView,
                    DecodeError,
                >(entries[i]@),
    {
        match decode_entry(row) {
            Ok(entry) => {
                entries.push(entry);
            },
            Err(e) => {
                assert(rows_decode(raw, it.index()));
                return Err(e);
            },
        }
    }
    Ok(Page { total_count, entries })
}

/// The progress of one directory's listing.
pub struct Pager {
    parent_id: u64,
    pages: u64,
    total: usize,
    entries: Vec<RemoteEntry>,
}

/// The mathematical content of a [`Pager`].
pub struct PagerView {
    /// The directory being listed; 0 is the course root.
    pub parent_id: u64,
    /// How many pages have been taken in.
    pub pages: nat,
    /// The total announced by the first page; 0 before it arrives.
    pub total: nat,
    /// Everything gathered so far, in arrival order.
    pub entries: Seq<EntryView>,
}

impl PagerView {
    /// A listing of which nothing has been asked yet.
    pub open spec fn start(parent_id: u64) -> PagerView {
        PagerView { parent_id, pages: 0, total: 0, entries: Seq::empty() }
    }

    /// The page to ask for next, counted from 1, or `None` when the listing
    /// is complete. The first page is always asked for; after it, pages are
    /// asked for while fewer entries than the announced total have arrived.
    pub open spec fn wanted(self) -> Option<nat> {
        if self.pages == 0 {
            Some(1nat)
        } else if self.entries.len() < self.total {
            Some(self.pages + 1)
        } else {
            None
        }
    }

    /// The state after one more page has arrived. Only the first page's
    /// total is kept; later pages cannot move the goal.
    pub open spec fn accept(self, page: PageView) -> PagerView {
        PagerView {
            parent_id: self.parent_id,
            pages: self.pages + 1,
            total: if self.pages == 0 {
                page.total_count
            } else {
                self.total
            },
            entries: self.entries + page.entries,
        }
    }
}

impl View for Pager {
    type V = PagerView;

    closed spec fn view(&self) -> PagerView {
        PagerView {
            parent_id: self.parent_id,
            pages: self.pages as nat,
            total: self.total as nat,
            entries: self.entries.deep_view(),
        }
    }
}

impl Pager {
    /// Starts the listing of directory `parent_id` (0 for the course root).
    pub fn new(parent_id: u64) -> (p: Pager)
        ensures
            p@ == PagerView::start(parent_id),
    {
        let p = Pager { parent_id, pages: 0, total: 0, entries: Vec::new() };
        assert(p.entries.deep_view() =~= Seq::empty());
        p
    }

    /// The directory being listed.
    pub fn parent_id(&self) -> (id: u64)
        ensures
            id == self@.parent_id,
    {
        self.parent_id
    }

    /// How many pages have been taken in.
    pub fn pages_fetched(&self) -> (n: u64)
        ensures
            n == self@.pages,
    {
        self.pages
    }

    /// The page to request next, or `None` when every entry has arrived.
    /// The page counter must not be exhausted.
    pub fn next_page(&self) -> (r: Option<u64>)
        requires
            self@.pages < u64::MAX,
        ensures
            match r {
                Some(k) => self@.wanted() == Some(k as nat),
                None => self@.wanted() is None,
            },
    {
        if self.pages == 0 {
            Some(1)
        } else if self.entries.len() < self.total {
            Some(self.pages + 1)
        } else {
            None
        }
    }

    /// Takes in the page that was requested last. The page counter must
    /// not be exhausted.
    pub fn accept(&mut self, page: Page)
        requires
            old(self)@.pages < u64::MAX,
        ensures
            final(self)@ == old(self)@.accept(page@),
    {
        let ghost arrived = page@;
        let mut page = page;
        if self.pages == 0 {
            self.total = page.total_count;
        }
        self.pages = self.pages + 1;
        let ghost before = self.entries@;
        let ghost added = page.entries@;
        self.entries.append(&mut page.entries);
        assert(self.entries.deep_view() =~= before.map_values(|e: RemoteEntry| e@)
            + added.map_values(|e: RemoteEntry| e@));
        assert(before.map_values(|e: RemoteEntry| e@) =~= old(self)@.entries);
        assert(added.map_values(|e: RemoteEntry| e@) =~= arrived.entries);
    }

    /// Gives up the gathered entries, in arrival order.
    pub fn into_entries(self) -> (v: Vec<RemoteEntry>)
        ensures
            v.deep_view() == self@.entries,
    {
        self.entries
    }
}

/// Page `k` (counted from 1) of a directory whose children are `all`, served
/// `page_size` at a time.
pub open spec fn page_of(all: Seq<EntryView>, page_size: nat, k: nat) -> PageView {
    let n = all.len() as int;
    PageView {
        total_count: all.len(),
        entries: all.subrange(capped((k - 1) * page_size, n), capped((k * page_size) as int, n)),
    }
}

/// `x`, but no more than `limit`.
pub open spec fn capped(x: int, limit: int) -> int {
    if x < limit {
        x
    } else {
        limit
    }
}

/// The state of a listing that has taken in pages 1 to `k` of such a
/// directory, in that order.
pub open spec fn after_pages(parent_id: u64, all: Seq<EntryView>, page_size: nat, k: nat)
    -> PagerView
    decreases k,
{
    if k == 0 {
        PagerView::start(parent_id)
    } else {
        after_pages(parent_id, all, page_size, (k - 1) as nat).accept(
            page_of(all, page_size, k),
        )
    }
}

/// How many requests the listing of `n` children takes: the first page is
/// always requested, so an empty directory costs one request.
pub open spec fn pages_needed(n: nat, page_size: nat) -> nat {
    if n == 0 {
        1
    } else {
        ((n + page_size - 1) / (page_size as int)) as nat
    }
}

proof fn lemma_after_pages(parent_id: u64, all: Seq<EntryView>, page_size: nat, k: nat)
    requires
        page_size > 0,
        k >= 1,
    ensures
        after_pages(parent_id, all, page_size, k).pages == k,
        after_pages(parent_id, all, page_size, k).total == all.len(),
        after_pages(parent_id, all, page_size, k).parent_id == parent_id,
        after_pages(parent_id, all, page_size, k).entries == all.take(
            capped((k * page_size) as int, all.len() as int),
        ),
    decreases k,
{
    if k == 1 {
        assert(after_pages(parent_id, all, page_size, 0) == PagerView::start(parent_id));
        assert((1 - 1) * page_size == 0 && 1 * page_size == page_size) by (nonlinear_arith);
    } else {
        lemma_after_pages(parent_id, all, page_size, (k - 1) as nat);
        assert((k - 1) * page_size + page_size == k * page_size) by (nonlinear_arith);
    }
}

/// Pagination terminates and is complete. Against a directory of `all.len()`
/// children served `page_size` at a time, the listing asks for pages
/// 1, 2, ... up to `pages_needed`, one request each, then asks for nothing
/// more and holds exactly the children, in order.
pub proof fn lemma_pagination(parent_id: u64, all: Seq<EntryView>, page_size: nat)
    requires
        page_size > 0,
    ensures
        forall|j: nat|
            j < pages_needed(all.len(), page_size) ==> (#[trigger] after_pages(
                parent_id,
                all,
                page_size,
                j,
            )).wanted() == Some(j + 1),
        after_pages(parent_id, all, page_size, pages_needed(all.len(), page_size)).wanted()
            is None,
        after_pages(parent_id, all, page_size, pages_needed(all.len(), page_size)).entries
            == all,
        all.len() > 0 ==> pages_needed(all.len(), page_size) * page_size >= all.len()
            && (pages_needed(all.len(), page_size) - 1) * page_size < all.len(),
{
    let n = all.len();
    let c = pages_needed(n, page_size);
    assert(c >= 1 && c * page_size >= n && (n > 0 ==> (c - 1) * page_size < n)) by {
        if n > 0 {
            vstd::arithmetic::div_mod::lemma_fundamental_div_mod(
                (n + page_size - 1) as int,
                page_size as int,
            );
            let q = (n + page_size - 1) / (page_size as int);
            let r = (n + page_size - 1) % (page_size as int);
            assert(page_size * q == q * page_size) by (nonlinear_arith);
            assert((q - 1) * page_size == q * page_size - page_size) by (nonlinear_arith);
            assert(q >= 1) by (nonlinear_arith)
                requires
                    q * page_size + r == n + page_size - 1,
                    0 <= r < page_size,
                    n > 0,
            ;
        } else {
            assert(1 * page_size >= 0) by (nonlinear_arith);
        }
    }
    lemma_after_pages(parent_id, all, page_size, c);
    assert forall|j: nat| j < c implies (#[trigger] after_pages(
        parent_id,
        all,
        page_size,
        j,
    )).wanted() == Some(j + 1) by {
        if j >= 1 {
            lemma_after_pages(parent_id, all, page_size, j);
            assert(j * page_size <= (c - 1) * page_size) by (nonlinear_arith)
                requires
                    j <= c - 1,
                    page_size > 0,
            ;
        }
    }
}

} // verus!
