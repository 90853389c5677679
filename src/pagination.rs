use vstd::prelude::*;

verus! {

/// How many entries one page holds.
pub const PAGE_SIZE: usize = 10;

/// The number of pages that `n` entries fill: `ceil(n / 10)`.
pub open spec fn pages_for(n: int) -> int {
    (n + 9) / 10
}

/// The greatest offset a window may start at: the start of the last ten
/// entries, or zero where there are fewer.
pub open spec fn last_start(n: int) -> int {
    if n >= 10 {
        n - 10
    } else {
        0
    }
}

/// Where the window of a 1-based page index starts among `n` entries: ten
/// entries per page before it, never below zero and never past `last_start`.
pub open spec fn window_start_of(n: int, page_index: int) -> int {
    let wanted = if page_index <= 1 {
        0
    } else {
        10 * (page_index - 1)
    };
    if wanted <= last_start(n) {
        wanted
    } else {
        last_start(n)
    }
}

/// Where the window ends: ten entries after its start, or the end.
pub open spec fn window_end_of(n: int, page_index: int) -> int {
    let s = window_start_of(n, page_index);
    if s + 10 <= n {
        s + 10
    } else {
        n
    }
}

/// The number of pages that `n` entries fill.
pub fn page_count_for(n: usize) -> (r: usize)
    ensures
        r == pages_for(n as int),
        r * 10 >= n,
        r * 10 < n + 10,
{
    let r = n / PAGE_SIZE + if n % PAGE_SIZE == 0 {
        0
    } else {
        1
    };
    assert(r == pages_for(n as int));
    r
}

/// The offset at which the window of `page_index` starts among `n` entries.
pub fn window_start(n: usize, page_index: usize) -> (r: usize)
    ensures
        r == window_start_of(n as int, page_index as int),
{
    let cap: usize = if n >= PAGE_SIZE {
        n - PAGE_SIZE
    } else {
        0
    };
    if page_index <= 1 {
        0
    } else if page_index - 1 > cap / PAGE_SIZE {
        assert(10 * (page_index - 1) > cap) by (nonlinear_arith)
            requires
                page_index - 1 > cap / 10,
        ;
        cap
    } else {
        assert(10 * (page_index - 1) <= cap) by (nonlinear_arith)
            requires
                page_index - 1 <= cap / 10,
        ;
        PAGE_SIZE * (page_index - 1)
    }
}

/// Every window holds at most one page of entries, and lies inside the
/// collection.
pub proof fn lemma_window_bounds(n: int, page_index: int)
    requires
        n >= 0,
    ensures
        0 <= window_start_of(n, page_index) <= window_end_of(n, page_index) <= n,
        window_end_of(n, page_index) - window_start_of(n, page_index) <= 10,
{
}

/// A page index past the last page gives the same window as the last page.
pub proof fn lemma_past_last_page(n: int, page_index: int)
    requires
        n > 0,
        page_index >= pages_for(n),
    ensures
        window_start_of(n, page_index) == window_start_of(n, pages_for(n)),
        window_end_of(n, page_index) == window_end_of(n, pages_for(n)),
{
    let p = pages_for(n);
    assert(10 * (p - 1) >= last_start(n)) by (nonlinear_arith)
        requires
            p == (n + 9) / 10,
            n > 0,
            last_start(n) == if n >= 10 { n - 10 } else { 0 },
    ;
    if page_index > 1 {
        assert(10 * (page_index - 1) >= 10 * (p - 1)) by (nonlinear_arith)
            requires
                page_index >= p,
        ;
    }
}

/// The page count is `ceil(n / 10)`: zero for no entries, and the least
/// number of ten-entry pages that hold them all.
pub proof fn lemma_page_count_is_ceiling(n: int)
    requires
        n >= 0,
    ensures
        pages_for(n) * 10 >= n,
        (pages_for(n) - 1) * 10 < n || n == 0,
        n == 0 ==> pages_for(n) == 0,
{
}

} // verus!
