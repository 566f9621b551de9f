//! The pagination engine: page windows, page counts and pager flags computed
//! from a requested page, a page size and a total row count.
//!
//! The engine validates nothing: a page of zero or a negative page yields a
//! negative offset, which callers must reject before it reaches a store.

use vstd::prelude::*;
use vstd::arithmetic::div_mod::{
    lemma_basic_div, lemma_div_pos_is_pos, lemma_fundamental_div_mod,
    lemma_fundamental_div_mod_converse, lemma_div_is_ordered,
};
use vstd::math::min;

verus! {

/// A page request as carried in a listing query. A `None` field takes the
/// caller's default: page 1, and a page size that varies by listing.
#[derive(Clone)]
pub struct Pagination {
    pub page: Option<usize>,
    pub page_size: Option<usize>,
}

/// The slice of an ordered record set selected for one page, with the page
/// count and the pager flags derived from it.
pub struct PageWindow {
    /// Rows to skip before the window: `(page - 1) * page_size`. Negative
    /// when the caller passed a page below 1.
    pub offset: i64,
    /// Rows in the window: the page size, unchanged.
    pub limit: i32,
    /// Pages needed to hold every row: the total count divided by the page
    /// size, rounded up.
    pub total_pages: i32,
    /// Whether a previous page exists: `page > 1`.
    pub has_prev: bool,
    /// Whether a further page exists: `page < total_pages`.
    pub has_next: bool,
}

/// The page requested, defaulting to 1.
pub open spec fn spec_page(p: Pagination) -> int {
    match p.page {
        Some(n) => n as int,
        None => 1,
    }
}

/// The page size requested, defaulting to the gallery listing's 6.
pub open spec fn spec_gallery_size(p: Pagination) -> int {
    match p.page_size {
        Some(n) => n as int,
        None => 6,
    }
}

/// Rows skipped before page `page` begins.
pub open spec fn spec_offset(page: int, size: int) -> int {
    (page - 1) * size
}

/// Pages needed to hold `total` rows, `size` rows to a page: the ceiling of
/// `total / size`.
pub open spec fn spec_total_pages(total: int, size: int) -> int
    recommends
        size >= 1,
{
    (total + size - 1) / size
}

/// How many rows page `page` actually holds out of `total`: a full `size`,
/// except on the last page, which may be partial, and none past the end.
pub open spec fn spec_window_len(total: int, page: int, size: int) -> int {
    let off = spec_offset(page, size);
    if off >= total {
        0
    } else if total - off < size {
        total - off
    } else {
        size
    }
}

/// The window lengths of pages `1..=pages`, summed.
pub open spec fn spec_window_sum(total: int, size: int, pages: int) -> int
    decreases pages,
{
    if pages <= 0 {
        0
    } else {
        spec_window_sum(total, size, pages - 1) + spec_window_len(total, pages, size)
    }
}

/// The slice of `s` that page `page` of size `size` selects, clipped to the
/// ends of `s`.
pub open spec fn spec_window<T>(s: Seq<T>, page: int, size: int) -> Seq<T>
    recommends
        page >= 1,
        size >= 0,
{
    let off = spec_offset(page, size);
    s.subrange(min(off, s.len() as int), min(off + size, s.len() as int))
}

/// The first `pages` pages together hold `min(total, pages * size)` rows.
proof fn lemma_window_sum_is_min(total: int, size: int, pages: int)
    requires
        total >= 0,
        size >= 1,
        pages >= 0,
    ensures
        spec_window_sum(total, size, pages) == min(total, pages * size),
    decreases pages,
{
    if pages == 0 {
        assert(pages * size == 0) by (nonlinear_arith)
            requires
                pages == 0,
        ;
    } else {
        lemma_window_sum_is_min(total, size, pages - 1);
        assert((pages - 1) * size == pages * size - size) by (nonlinear_arith);
        assert((pages - 1) * size >= 0) by (nonlinear_arith)
            requires
                pages >= 1,
                size >= 1,
        ;
    }
}

/// Law: for every positive page size, the window lengths of pages
/// `1..=total_pages` sum to exactly the total row count; only the last page
/// may be partial.
pub proof fn lemma_windows_cover_total(total: int, size: int)
    requires
        total >= 0,
        size >= 1,
    ensures
        spec_window_sum(total, size, spec_total_pages(total, size)) == total,
{
    let n = spec_total_pages(total, size);
    lemma_div_pos_is_pos(total + size - 1, size);
    lemma_window_sum_is_min(total, size, n);
    lemma_fundamental_div_mod(total + size - 1, size);
    assert(total + size - 1 == size * n + (total + size - 1) % size);
    assert(n * size == size * n) by (nonlinear_arith);
    assert((total + size - 1) % size < size);
    assert(n * size >= total);
}

/// The windows of pages `1..=pages`, laid end to end.
pub open spec fn spec_window_concat<T>(s: Seq<T>, size: int, pages: int) -> Seq<T>
    decreases pages,
{
    if pages <= 0 {
        Seq::empty()
    } else {
        spec_window_concat(s, size, pages - 1) + spec_window(s, pages, size)
    }
}

/// The first `pages` windows laid end to end are the sequence's first
/// `min(len, pages * size)` elements.
proof fn lemma_window_concat_prefix<T>(s: Seq<T>, size: int, pages: int)
    requires
        size >= 1,
        pages >= 0,
    ensures
        spec_window_concat(s, size, pages) == s.take(min(s.len() as int, pages * size)),
    decreases pages,
{
    if pages == 0 {
        assert(pages * size == 0) by (nonlinear_arith)
            requires
                pages == 0,
        ;
        assert(s.take(0) =~= Seq::<T>::empty());
    } else {
        lemma_window_concat_prefix(s, size, pages - 1);
        assert((pages - 1) * size + size == pages * size) by (nonlinear_arith);
        assert((pages - 1) * size >= 0) by (nonlinear_arith)
            requires
                pages >= 1,
                size >= 1,
        ;
        assert(spec_window_concat(s, size, pages) =~= s.take(
            min(s.len() as int, pages * size),
        ));
    }
}

/// Law: for every positive page size, the windows of pages
/// `1..=total_pages` laid end to end are exactly the whole sequence, so
/// each element lies in exactly one window; and every page before the last
/// is full, so only the last window may be shorter than the page size.
pub proof fn lemma_windows_partition<T>(s: Seq<T>, size: int)
    requires
        size >= 1,
    ensures
        spec_window_concat(s, size, spec_total_pages(s.len() as int, size)) == s,
        forall|p: int|
            1 <= p < spec_total_pages(s.len() as int, size) ==> (#[trigger] spec_window(
                s,
                p,
                size,
            )).len() == size,
{
    let len = s.len() as int;
    let n = spec_total_pages(len, size);
    lemma_div_pos_is_pos(len + size - 1, size);
    lemma_window_concat_prefix(s, size, n);
    lemma_fundamental_div_mod(len + size - 1, size);
    let rem = (len + size - 1) % size;
    assert(len + size - 1 == size * n + rem);
    assert(n * size == size * n) by (nonlinear_arith);
    assert(rem < size);
    assert(n * size >= len);
    assert(s.take(min(len, n * size)) =~= s);
    assert forall|p: int| 1 <= p < n implies (#[trigger] spec_window(s, p, size)).len()
        == size by {
        assert((n - 1) * size == n * size - size) by (nonlinear_arith);
        assert((n - 1) * size == len - 1 - rem);
        assert(p * size <= (n - 1) * size) by (nonlinear_arith)
            requires
                p <= n - 1,
                size >= 1,
        ;
        assert((p - 1) * size + size == p * size) by (nonlinear_arith);
        assert((p - 1) * size >= 0) by (nonlinear_arith)
            requires
                p >= 1,
                size >= 1,
        ;
    }
}

/// Computes the window, page count and pager flags for one listing request.
/// Nothing is validated here: a `page` of 0 or below yields a negative
/// offset, which the caller must reject before it reaches the store.
pub fn compute(total_count: i32, page: i32, page_size: i32) -> (w: PageWindow)
    requires
        total_count >= 0,
        page_size >= 1,
    ensures
        w.offset == spec_offset(page as int, page_size as int),
        w.limit == page_size,
        w.total_pages == spec_total_pages(total_count as int, page_size as int),
        w.has_prev == (page > 1),
        w.has_next == (page < w.total_pages),
{
    let p64: i64 = page as i64;
    let s64: i64 = page_size as i64;
    let t64: i64 = total_count as i64;
    assert(i64::MIN <= (p64 - 1) * s64 <= i64::MAX) by (nonlinear_arith)
        requires
            -0x8000_0000 <= p64 <= 0x7fff_ffff,
            1 <= s64 <= 0x7fff_ffff,
    ;
    let offset: i64 = (p64 - 1) * s64;

    let tp64: i64 = (t64 + s64 - 1) / s64;
    proof {
        lemma_div_pos_is_pos(t64 + s64 - 1, s64 as int);
        if t64 == 0 {
            lemma_basic_div(s64 - 1, s64 as int);
        } else {
            assert(t64 + s64 - 1 <= t64 * s64 + s64 - 1) by (nonlinear_arith)
                requires
                    t64 >= 1,
                    s64 >= 1,
            ;
            lemma_div_is_ordered(t64 + s64 - 1, t64 * s64 + s64 - 1, s64 as int);
            lemma_fundamental_div_mod_converse(t64 * s64 + s64 - 1, s64 as int, t64 as int, s64 - 1);
        }
        assert(0 <= tp64 <= t64);
    }
    let total_pages: i32 = tp64 as i32;

    PageWindow {
        offset,
        limit: page_size,
        total_pages,
        has_prev: page > 1,
        has_next: page < total_pages,
    }
}

/// Selects the window of `image_files` that `pagination` asks for, clipped
/// to the ends of the list: the page of file names shown by the gallery.
pub fn paginate(image_files: Vec<String>, pagination: Pagination) -> (r: Vec<String>)
    requires
        spec_page(pagination) >= 1,
        spec_page(pagination) * spec_gallery_size(pagination) <= usize::MAX,
    ensures
        r.deep_view() == spec_window(
            image_files.deep_view(),
            spec_page(pagination),
            spec_gallery_size(pagination),
        ),
{
    let page: usize = match pagination.page {
        Some(p) => p,
        None => 1,
    };
    let page_size: usize = match pagination.page_size {
        Some(s) => s,
        None => 6,
    };
    assert((page - 1) * page_size + page_size == page * page_size) by (nonlinear_arith)
        requires
            page >= 1,
    ;
    let start: usize = (page - 1) * page_size;
    let len: usize = image_files.len();
    let ghost w = spec_window(
        image_files.deep_view(),
        spec_page(pagination),
        spec_gallery_size(pagination),
    );
    let mut out: Vec<String> = Vec::new();
    if start >= len {
        proof {
            assert(out.deep_view() =~= w);
        }
        return out;
    }
    let mut end: usize = start + page_size;
    if end > len {
        end = len;
    }
    let mut i: usize = start;
    while i < end
        invariant
            start <= i <= end <= len,
            len == image_files@.len(),
            out@.len() == i - start,
            forall|k: int|
                0 <= k < i - start ==> #[trigger] out.deep_view()[k]
                    == image_files.deep_view()[start + k],
        decreases end - i,
    {
        let ghost prev = out;
        let entry: String = image_files[i].clone();
        out.push(entry);
        proof {
            assert forall|k: int| 0 <= k < i + 1 - start implies #[trigger] out.deep_view()[k]
                == image_files.deep_view()[start + k] by {
                assert(out.deep_view()[k] == out@[k].deep_view());
                if k < i - start {
                    assert(out@[k] == prev@[k]);
                    assert(prev.deep_view()[k] == prev@[k].deep_view());
                } else {
                    assert(out@[k] == entry);
                    assert(entry@ == image_files@[i as int]@);
                    assert(image_files.deep_view()[start + k] == image_files@[start
                        + k].deep_view());
                }
            }
        }
        i = i + 1;
    }
    proof {
        assert(w.len() == end - start);
        assert forall|k: int| 0 <= k < w.len() implies out.deep_view()[k] == w[k] by {
            assert(w[k] == image_files.deep_view()[start + k]);
        }
        assert(out.deep_view() =~= w);
    }
    out
}

} // verus!
