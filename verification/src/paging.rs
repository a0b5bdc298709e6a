//! Page windows over a listing.

use vstd::prelude::*;

verus! {

/// Where a page starts and ends in the listing, and how many pages there are.
#[derive(Clone, Copy, Debug, PartialEq, Eq, Structural)]
pub struct PageWindow {
    pub start: usize,
    pub end: usize,
    pub pages: u32,
}

/// The number of pages of `limit` items that `total` items fill: rounded up,
/// held to `u32::MAX`; with a limit of zero, none for no items and
/// `u32::MAX` otherwise.
pub open spec fn page_count(total: nat, limit: nat) -> nat {
    if limit == 0 {
        if total == 0 {
            0
        } else {
            u32::MAX as nat
        }
    } else {
        let c = (total + limit - 1) / (limit as int);
        if c > u32::MAX {
            u32::MAX as nat
        } else {
            c as nat
        }
    }
}

/// The first item of a page (pages count from one; page zero is page one).
pub open spec fn page_start(page: nat, limit: nat) -> nat {
    if page == 0 {
        0
    } else {
        ((page - 1) * limit) as nat
    }
}

/// Whether a page can be worked out without overflowing.
pub open spec fn page_in_range(page: u32, limit: u32) -> bool {
    page_start(page as nat, limit as nat) <= u32::MAX && page_start(page as nat, limit as nat)
        + limit <= usize::MAX
}

/// The window of page `page` of `limit` items over `total` items.
pub open spec fn page_window_of(total: nat, page: nat, limit: nat) -> (nat, nat, nat) {
    let start = page_start(page, limit);
    let end = if start + limit < total {
        start + limit
    } else {
        total
    };
    (start, end, page_count(total, limit))
}

/// Works out page `page` of `limit` items over a listing of `total` items.
pub fn page_window(total: usize, page: u32, limit: u32) -> (w: PageWindow)
    requires
        page_in_range(page, limit),
    ensures
        (w.start as nat, w.end as nat, w.pages as nat) == page_window_of(
            total as nat,
            page as nat,
            limit as nat,
        ),
{
    let pages: u32 = if limit == 0 {
        if total == 0 {
            0
        } else {
            u32::MAX
        }
    } else {
        let t = total as u64;
        let l = limit as u64;
        let q = t / l;
        proof {
            assert(q * l <= t && t % l < l && t == q * l + t % l) by (nonlinear_arith)
                requires
                    l > 0,
                    q == t / l,
            ;
            assert(t % l != 0 ==> q < u64::MAX) by (nonlinear_arith)
                requires
                    l > 0,
                    q == t / l,
                    t <= u64::MAX,
                    t == q * l + t % l,
            ;
        }
        let c = if t % l == 0 {
            q
        } else {
            q + 1
        };
        proof {
            assert(c == (total + limit - 1) / (limit as int)) by (nonlinear_arith)
                requires
                    l > 0,
                    l == limit,
                    t == total,
                    t == q * l + t % l,
                    0 <= t % l < l,
                    t % l == 0 ==> c == q,
                    t % l != 0 ==> c == q + 1,
            ;
        }
        if c > u32::MAX as u64 {
            u32::MAX
        } else {
            c as u32
        }
    };
    let before: u32 = if page == 0 {
        0
    } else {
        page - 1
    };
    proof {
        assert(before * limit == page_start(page as nat, limit as nat)) by (nonlinear_arith)
            requires
                before == (if page == 0 {
                    0
                } else {
                    page - 1
                }),
        ;
    }
    let start = (before * limit) as usize;
    let reach = start + limit as usize;
    let end = if reach < total {
        reach
    } else {
        total
    };
    PageWindow { start, end, pages }
}

/// The items of a page window: empty when the page starts past the end.
pub fn page_items<T: Copy>(items: &Vec<T>, w: PageWindow) -> (r: Vec<T>)
    requires
        w.end <= items@.len(),
        w.start < items@.len() ==> w.start <= w.end,
    ensures
        r@ == if w.start < items@.len() {
            items@.subrange(w.start as int, w.end as int)
        } else {
            Seq::<T>::empty()
        },
{
    let mut r: Vec<T> = Vec::new();
    if w.start < items.len() {
        let mut k = w.start;
        while k < w.end
            invariant
                w.start <= k <= w.end,
                w.end <= items@.len(),
                r@ == items@.subrange(w.start as int, k as int),
            decreases w.end - k,
        {
            r.push(items[k]);
            k = k + 1;
            assert(r@ =~= items@.subrange(w.start as int, k as int));
        }
    }
    r
}

/// With a positive limit, every item lies in exactly one page: item `i`
/// lies in page `i / limit + 1`, which is one of the counted pages.
pub proof fn lemma_item_on_its_page(total: nat, limit: nat, i: nat)
    requires
        limit > 0,
        i < total,
    ensures
        ({
            let w = page_window_of(total, i / limit + 1, limit);
            w.0 <= i < w.1
        }),
        i / limit + 1 <= (total + limit - 1) / (limit as int),
{
    let p = i / limit;
    assert(p * limit <= i) by (nonlinear_arith)
        requires
            p == i / limit,
            limit > 0,
    ;
    assert(i < p * limit + limit) by (nonlinear_arith)
        requires
            p == i / limit,
            limit > 0,
    ;
    assert(p + 1 <= (total + limit - 1) / (limit as int)) by (nonlinear_arith)
        requires
            p == i / limit,
            limit > 0,
            i < total,
    ;
    assert(page_start(p + 1, limit) == p * limit);
}

/// Different pages never share an item: a page ends where a later one may
/// start, at the earliest.
pub proof fn lemma_pages_disjoint(total: nat, limit: nat, p1: nat, p2: nat)
    requires
        0 < p1 < p2,
    ensures
        page_window_of(total, p1, limit).1 <= page_window_of(total, p2, limit).0,
{
    assert((p1 - 1) * limit + limit <= (p2 - 1) * limit) by (nonlinear_arith)
        requires
            0 < p1 < p2,
    ;
}

} // verus!
