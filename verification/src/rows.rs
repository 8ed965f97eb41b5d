use vstd::prelude::*;

verus! {

use vstd::math::min;

/// First index of the 1-based page `page` with `size` rows per page.
/// A page number below 1 is clamped to the first page, as the engine clamps
/// a negative offset.
pub open spec fn page_start(page: int, size: int) -> int {
    if page >= 1 {
        (page - 1) * size
    } else {
        0
    }
}

/// The slice of `s` that the 1-based page `page` of size `size` selects.
pub open spec fn page_slice<T>(s: Seq<T>, page: int, size: int) -> Seq<T>
    recommends
        size >= 1,
{
    let start = page_start(page, size);
    if start >= s.len() {
        Seq::empty()
    } else if start + size <= s.len() {
        s.subrange(start, start + size)
    } else {
        s.subrange(start, s.len() as int)
    }
}

/// `s` cut off after at most `k` elements.
pub open spec fn take_at_most<T>(s: Seq<T>, k: int) -> Seq<T> {
    if k >= s.len() {
        s
    } else {
        s.take(k)
    }
}

/// Keep only the rows of the requested page.
pub fn paginate<T>(v: Vec<T>, page: i32, size: i32) -> (r: Vec<T>)
    requires
        size >= 1,
    ensures
        r@ == page_slice(v@, page as int, size as int),
{
    let ghost orig = v@;
    let mut v = v;
    let start_i64: i64 = if page >= 1 {
        proof {
            assert(0 <= (page as i64 - 1) * (size as i64) <= (i32::MAX as i64) * (i32::MAX as i64))
                by (nonlinear_arith)
                requires
                    1 <= page <= i32::MAX,
                    1 <= size <= i32::MAX,
            ;
        }
        (page as i64 - 1) * (size as i64)
    } else {
        0
    };
    let len = v.len();
    if start_i64 as u64 >= len as u64 {
        v.clear();
        return v;
    }
    let start: usize = start_i64 as usize;
    let mut k: usize = 0;
    while k < start
        invariant
            k <= start,
            start < orig.len(),
            v@ == orig.skip(k as int),
        decreases start - k,
    {
        v.remove(0);
        proof {
            assert(orig.skip(k as int).remove(0) =~= orig.skip(k + 1));
        }
        k += 1;
    }
    let take: usize = if v.len() >= size as usize {
        size as usize
    } else {
        v.len()
    };
    v.truncate(take);
    proof {
        assert(orig.skip(start as int).take(take as int) =~= page_slice(
            orig,
            page as int,
            size as int,
        ));
    }
    v
}

/// Keep at most the first `k` rows.
pub fn truncate_to<T>(v: Vec<T>, k: i32) -> (r: Vec<T>)
    requires
        k >= 0,
    ensures
        r@ == take_at_most(v@, k as int),
{
    let mut v = v;
    let take: usize = if v.len() >= k as usize {
        k as usize
    } else {
        v.len()
    };
    v.truncate(take);
    v
}

/// One page covers the rows from its clamped start to its clamped end under
/// the fixed ordering of `s`.
pub proof fn lemma_page_slice_bounds<T>(s: Seq<T>, page: int, size: int)
    requires
        size >= 1,
        page >= 1,
    ensures
        page_slice(s, page, size) =~= s.subrange(
            min((page - 1) * size, s.len() as int),
            min(page * size, s.len() as int),
        ),
{
    assert((page - 1) * size + size == page * size) by (nonlinear_arith);
    assert((page - 1) * size >= 0) by (nonlinear_arith)
        requires
            page >= 1,
            size >= 1,
    ;
}

/// Consecutive pages are adjacent: together they cover one contiguous span
/// of `s`, with no overlap and no gap.
pub proof fn lemma_pages_adjacent<T>(s: Seq<T>, page: int, size: int)
    requires
        size >= 1,
        page >= 1,
    ensures
        page_slice(s, page, size) + page_slice(s, page + 1, size) =~= s.subrange(
            min((page - 1) * size, s.len() as int),
            min((page + 1) * size, s.len() as int),
        ),
{
    lemma_page_slice_bounds(s, page, size);
    lemma_page_slice_bounds(s, page + 1, size);
    assert((page - 1) * size <= page * size && page * size <= (page + 1) * size)
        by (nonlinear_arith)
        requires
            size >= 1,
    ;
}

/// The first page holds `min(size, N)` of the `N` rows of `s`.
pub proof fn lemma_first_page_len<T>(s: Seq<T>, size: int)
    requires
        size >= 1,
    ensures
        page_slice(s, 1, size).len() == min(size, s.len() as int),
{
}

} // verus!
