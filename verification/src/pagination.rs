//! Page slicing of block lists.

use vstd::prelude::*;

verus! {

/// Page size used when the caller does not ask for one.
pub const DEFAULT_PAGE_SIZE: usize = 50;

/// A 1-indexed page request.
#[derive(Debug, Clone, Copy)]
pub struct PageRequest {
    pub page: usize,
    pub page_size: usize,
}

impl Default for PageRequest {
    fn default() -> (r: Self)
        ensures
            r.page == 1,
            r.page_size == DEFAULT_PAGE_SIZE,
    {
        PageRequest { page: 1, page_size: DEFAULT_PAGE_SIZE }
    }
}

/// One page of items with the paging figures.
pub struct PageOutcome<T> {
    pub items: Vec<T>,
    pub page: usize,
    pub page_size: usize,
    pub total: usize,
    pub total_pages: usize,
}

/// The effective page size: at least 1.
pub open spec fn eff_page_size(req_size: nat) -> nat {
    if req_size == 0 { 1 } else { req_size }
}

/// Number of pages: `ceil(total / size)`, and at least 1.
pub open spec fn page_count(total: nat, size: nat) -> nat
    recommends size > 0,
{
    let c = if total % size == 0 { total / size } else { total / size + 1 };
    if c == 0 { 1 } else { c }
}

/// The page actually served: the request clamped to `1..=pages`.
pub open spec fn served_page(req_page: nat, pages: nat) -> nat {
    let p = if req_page == 0 { 1 } else { req_page };
    if p > pages { pages } else { p }
}

/// First item index of page `p` (1-indexed).
pub open spec fn page_start(p: nat, size: nat) -> nat {
    ((p - 1) * size) as nat
}

/// One past the last item index of page `p`.
pub open spec fn page_end(p: nat, size: nat, total: nat) -> nat {
    let e = page_start(p, size) + size;
    if e > total { total } else { e }
}

proof fn lemma_page_bounds(total: nat, size: nat, p: nat)
    requires
        size > 0,
        1 <= p <= page_count(total, size),
    ensures
        page_start(p, size) <= total,
        page_start(p, size) < total || (total == 0 && p == 1),
        page_count(total, size) * size >= total,
        page_count(total, size) >= 1,
{
    let q = total / size;
    let r = total % size;
    assert(total == q * size + r) by (nonlinear_arith)
        requires size > 0, q == total / size, r == total % size;
    assert(0 <= r < size) by (nonlinear_arith)
        requires size > 0, r == total % size;
    let c = page_count(total, size);
    if r == 0 {
        if q == 0 {
            assert(total == 0) by (nonlinear_arith) requires total == q * size + r, q == 0, r == 0;
            assert(c == 1);
            assert(p == 1);
            assert(page_start(p, size) == 0) by (nonlinear_arith) requires p == 1;
            assert(c * size >= total) by (nonlinear_arith) requires c == 1, total == 0, size > 0;
        } else {
            assert(c == q);
            assert((p - 1) * size <= (q - 1) * size) by (nonlinear_arith) requires 1 <= p <= q, size > 0;
            assert((q - 1) * size < total) by (nonlinear_arith) requires total == q * size + r, r == 0, size > 0, q >= 1;
            assert(c * size >= total) by (nonlinear_arith) requires c == q, total == q * size + r, r == 0;
        }
    } else {
        assert(c == q + 1);
        assert((p - 1) * size <= q * size) by (nonlinear_arith) requires 1 <= p <= q + 1, size > 0;
        assert(q * size < total) by (nonlinear_arith) requires total == q * size + r, r > 0;
        assert(c * size >= total) by (nonlinear_arith) requires c == q + 1, total == q * size + r, r < size;
    }
}

/// Slices `all` into the requested page. The page size is raised to 1 if
/// zero, the page number is clamped to `1..=total_pages`, and an empty input
/// yields a single empty page.
pub fn paginate<T: Clone>(all: &[T], req: PageRequest) -> (r: PageOutcome<T>)
    ensures
        r.page_size == eff_page_size(req.page_size as nat),
        r.total == all@.len(),
        r.total_pages == page_count(all@.len(), r.page_size as nat),
        r.page == served_page(req.page as nat, r.total_pages as nat),
        r.items@.len() == page_end(r.page as nat, r.page_size as nat, r.total as nat)
            - page_start(r.page as nat, r.page_size as nat),
        forall|j: int| 0 <= j < r.items@.len() ==> cloned(
            all@[page_start(r.page as nat, r.page_size as nat) + j],
            #[trigger] r.items@[j],
        ),
{
    let page_size: usize = if req.page_size == 0 { 1 } else { req.page_size };
    let total = all.len();
    let q = total / page_size;
    assert(total % page_size != 0 ==> q < usize::MAX) by (nonlinear_arith)
        requires q == total / page_size, page_size >= 1, total <= usize::MAX,
    {
        if total % page_size != 0 {
            assert(page_size >= 2);
            assert(q * page_size <= total);
            assert(q * 2 <= q * page_size);
        }
    }
    let c = if total % page_size == 0 { q } else { q + 1 };
    let total_pages: usize = if c == 0 { 1 } else { c };
    let p1: usize = if req.page == 0 { 1 } else { req.page };
    let page: usize = if p1 > total_pages { total_pages } else { p1 };
    proof {
        lemma_page_bounds(total as nat, page_size as nat, page as nat);
    }
    assert((page - 1) * page_size <= total) by (nonlinear_arith)
        requires page_start(page as nat, page_size as nat) <= total, page >= 1;
    let start: usize = (page - 1) * page_size;
    assert(start == page_start(page as nat, page_size as nat));
    assert(start <= total);
    let end: usize = if page_size > total - start { total } else { start + page_size };
    let mut items: Vec<T> = Vec::new();
    let mut i: usize = start;
    while i < end
        invariant
            start <= i <= end,
            end <= all@.len(),
            items@.len() == i - start,
            forall|j: int| 0 <= j < items@.len() ==> cloned(all@[start + j], #[trigger] items@[j]),
        decreases end - i,
    {
        let x = all[i].clone();
        items.push(x);
        i = i + 1;
    }
    PageOutcome { items, page, page_size, total, total_pages }
}

/// The pages of a list tile it: every page lies inside the list, each page
/// ends where the next begins, the first starts at 0 and the last ends at
/// the list's end, and no page holds more than the page size.
pub proof fn lemma_pages_tile(total: nat, size: nat, p: nat)
    requires
        size > 0,
        1 <= p <= page_count(total, size),
    ensures
        page_start(p, size) <= page_end(p, size, total) <= total,
        page_end(p, size, total) - page_start(p, size) <= size,
        page_start(1, size) == 0,
        p < page_count(total, size) ==> page_end(p, size, total) == page_start(p + 1, size),
        p == page_count(total, size) ==> page_end(p, size, total) == total,
{
    lemma_page_bounds(total, size, p);
    assert(page_start(1, size) == 0) by (nonlinear_arith) requires size > 0;
    if p < page_count(total, size) {
        lemma_page_bounds(total, size, p + 1);
        assert(page_start(p + 1, size) == page_start(p, size) + size) by (nonlinear_arith)
            requires p >= 1;
    }
    if p == page_count(total, size) {
        assert(page_start(p, size) + size >= total) by (nonlinear_arith)
            requires page_count(total, size) * size >= total, p == page_count(total, size), p >= 1;
    }
}

} // verus!
