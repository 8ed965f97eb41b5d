use vstd::prelude::*;

verus! {

use crate::bookmark::{
    bk_delete_rows, bk_find, bk_id_of, bk_insert_sorted, bk_matches, bk_order_of, bk_query_spec,
    bk_row, bk_sort_spec, bk_update_rows, bk_wf, bk_filter_spec, BkOrderCol, BookmarkDataV,
    BookmarkQueryV, BookmarkV,
};
use crate::download::{
    dl_before, dl_insert_sorted, dl_listing_spec, dl_matches, dl_sort_spec, DlFilterV, DownloadV,
};
use crate::rows::page_slice;
use crate::table::{
    lemma_tbl_find_after_delete, lemma_tbl_find_after_insert, lemma_tbl_find_after_update,
};

/// The laws of the repository operations, stated over the spec functions
/// and views that the operations' own contracts use.  Pagination's laws —
/// the size of the first page and the adjacency of consecutive pages —
/// stand beside the pagination functions in [`crate::rows`].
///
/// Law: saving a record with no identifier and then fetching the returned
/// identifier yields exactly the saved fields under that identifier.  The
/// hypotheses are what a successful insert-save guarantees of its result:
/// a well-formed table and a fresh, larger identifier.
pub proof fn law_save_then_get_bookmark(rows: Seq<BookmarkV>, d: BookmarkDataV, id: i64)
    requires
        bk_wf(rows),
        id >= 1,
        forall|i: int| 0 <= i < rows.len() ==> (#[trigger] rows[i]).id < id,
    ensures
        bk_find(rows.push(bk_row(id, d)), id) == Some(bk_row(id, d)),
{
    assert forall|i: int| 0 <= i < rows.len() implies bk_id_of()(#[trigger] rows[i]) != id by {
        assert(rows[i].id < id);
    }
    lemma_tbl_find_after_insert(rows, bk_id_of(), bk_row(id, d), id);
}

/// Law: saving new fields under a persisted identifier and then fetching
/// that identifier yields the new fields verbatim, identifier unchanged.
pub proof fn law_update_then_get_bookmark(rows: Seq<BookmarkV>, id: i64, d: BookmarkDataV)
    requires
        bk_find(rows, id) is Some,
    ensures
        bk_find(bk_update_rows(rows, id, d), id) == Some(bk_row(id, d)),
{
    lemma_tbl_find_after_update(rows, bk_id_of(), id, bk_row(id, d));
}

/// Law: after a deletion, fetching the deleted identifier yields the
/// absent result, whatever the table held before.
pub proof fn law_delete_then_get_bookmark(rows: Seq<BookmarkV>, id: i64)
    ensures
        bk_find(bk_delete_rows(rows, id), id) is None,
{
    lemma_tbl_find_after_delete(rows, bk_id_of(), id);
}

/// Two queries whose filters agree on every row return the same rows.
proof fn lemma_bk_filter_congruent(rows: Seq<BookmarkV>, q1: BookmarkQueryV, q2: BookmarkQueryV)
    requires
        forall|r: BookmarkV| bk_matches(r, q1) == bk_matches(r, q2),
    ensures
        bk_filter_spec(rows, q1) == bk_filter_spec(rows, q2),
    decreases rows.len(),
{
    reveal_with_fuel(Seq::filter, 2);
    if rows.len() > 0 {
        lemma_bk_filter_congruent(rows.drop_last(), q1, q2);
        assert(bk_matches(rows.last(), q1) == bk_matches(rows.last(), q2));
    }
}

/// A filter that every row passes keeps the table as it is.
proof fn lemma_bk_filter_all(rows: Seq<BookmarkV>, q: BookmarkQueryV)
    requires
        forall|r: BookmarkV| bk_matches(r, q),
    ensures
        bk_filter_spec(rows, q) == rows,
    decreases rows.len(),
{
    reveal_with_fuel(Seq::filter, 2);
    if rows.len() > 0 {
        lemma_bk_filter_all(rows.drop_last(), q);
        assert(bk_matches(rows.last(), q));
        assert(bk_filter_spec(rows, q) == rows.drop_last().push(rows.last()));
        assert(rows.drop_last().push(rows.last()) =~= rows);
    }
}

/// Inserting one row adds exactly that row to the sorted rows' multiset.
proof fn lemma_bk_insert_sorted_multiset(s: Seq<BookmarkV>, x: BookmarkV, col: BkOrderCol, desc: bool)
    ensures
        bk_insert_sorted(s, x, col, desc).to_multiset() == s.to_multiset().insert(x),
    decreases s.len(),
{
    broadcast use vstd::seq_lib::group_to_multiset_ensures;

    if s.len() == 0 {
        assert(Seq::<BookmarkV>::empty().push(x) =~= seq![x]);
        assert(bk_insert_sorted(s, x, col, desc) =~= seq![x]);
        assert(s.to_multiset() =~= Seq::<BookmarkV>::empty().to_multiset());
    } else if crate::bookmark::bk_before(s.last(), x, col, desc) {
    } else {
        let pre = s.drop_last();
        lemma_bk_insert_sorted_multiset(pre, x, col, desc);
        assert(bk_insert_sorted(s, x, col, desc) == bk_insert_sorted(pre, x, col, desc).push(
            s.last(),
        ));
        assert(bk_insert_sorted(pre, x, col, desc).push(s.last()).to_multiset()
            == bk_insert_sorted(pre, x, col, desc).to_multiset().insert(s.last()));
        assert(pre.push(s.last()) =~= s);
        assert(s.to_multiset() == pre.to_multiset().insert(s.last()));
        assert(pre.to_multiset().insert(x).insert(s.last()) =~= pre.to_multiset().insert(
            s.last(),
        ).insert(x));
    }
}

/// Sorting reorders the rows and neither adds nor drops one: the multiset
/// of rows is kept.
pub proof fn lemma_bk_sort_multiset(s: Seq<BookmarkV>, col: BkOrderCol, desc: bool)
    ensures
        bk_sort_spec(s, col, desc).to_multiset() == s.to_multiset(),
    decreases s.len(),
{
    broadcast use vstd::seq_lib::group_to_multiset_ensures;

    if s.len() > 0 {
        let pre = s.drop_last();
        lemma_bk_sort_multiset(pre, col, desc);
        lemma_bk_insert_sorted_multiset(bk_sort_spec(pre, col, desc), s.last(), col, desc);
        assert(pre.push(s.last()) =~= s);
        assert(s.to_multiset() == pre.to_multiset().insert(s.last()));
    }
}

/// The rows are in the entity's default order: ascending by `sort`.
pub open spec fn bk_sorted_default(s: Seq<BookmarkV>) -> bool {
    forall|i: int, j: int| 0 <= i < j < s.len() ==> s[i].sort <= s[j].sort
}

/// Every sort key of an insertion's result stays below any bound the
/// sorted rows and the new row respected.
proof fn lemma_bk_insert_sorted_key_bound(s: Seq<BookmarkV>, x: BookmarkV, b: i64)
    requires
        forall|i: int| 0 <= i < s.len() ==> (#[trigger] s[i]).sort <= b,
        x.sort <= b,
    ensures
        forall|i: int|
            0 <= i < bk_insert_sorted(s, x, BkOrderCol::Sort, false).len() ==> (
            #[trigger] bk_insert_sorted(s, x, BkOrderCol::Sort, false)[i]).sort <= b,
    decreases s.len(),
{
    let out = bk_insert_sorted(s, x, BkOrderCol::Sort, false);
    if s.len() == 0 {
        assert(out =~= seq![x]);
    } else if crate::bookmark::bk_before(s.last(), x, BkOrderCol::Sort, false) {
        assert(out == s.push(x));
    } else {
        let pre = s.drop_last();
        assert forall|i: int| 0 <= i < pre.len() implies (#[trigger] pre[i]).sort <= b by {
            assert(pre[i] == s[i]);
        }
        lemma_bk_insert_sorted_key_bound(pre, x, b);
        let g = bk_insert_sorted(pre, x, BkOrderCol::Sort, false);
        assert(out == g.push(s.last()));
        assert forall|i: int| 0 <= i < out.len() implies (#[trigger] out[i]).sort <= b by {
            if i < g.len() {
                assert(out[i] == g[i]);
            } else {
                assert(out[i] == s.last());
            }
        }
    }
}

/// Inserting into rows in default order keeps them in default order.
proof fn lemma_bk_insert_sorted_default(s: Seq<BookmarkV>, x: BookmarkV)
    requires
        bk_sorted_default(s),
    ensures
        bk_sorted_default(bk_insert_sorted(s, x, BkOrderCol::Sort, false)),
    decreases s.len(),
{
    let out = bk_insert_sorted(s, x, BkOrderCol::Sort, false);
    if s.len() == 0 {
        assert(out =~= seq![x]);
    } else if crate::bookmark::bk_before(s.last(), x, BkOrderCol::Sort, false) {
        assert(out == s.push(x));
        assert forall|i: int, j: int| 0 <= i < j < out.len() implies out[i].sort <= out[j].sort by {
            if j < s.len() {
                assert(out[i] == s[i] && out[j] == s[j]);
            } else {
                assert(out[j] == x);
                if i < s.len() - 1 {
                    assert(s[i].sort <= s[s.len() - 1].sort);
                }
                assert(s.last().sort <= x.sort);
            }
        }
    } else {
        let pre = s.drop_last();
        assert forall|i: int, j: int| 0 <= i < j < pre.len() implies pre[i].sort
            <= pre[j].sort by {
            assert(pre[i] == s[i] && pre[j] == s[j]);
        }
        lemma_bk_insert_sorted_default(pre, x);
        assert forall|i: int| 0 <= i < pre.len() implies (#[trigger] pre[i]).sort
            <= s.last().sort by {
            assert(pre[i] == s[i]);
        }
        assert(x.sort <= s.last().sort);
        lemma_bk_insert_sorted_key_bound(pre, x, s.last().sort);
        let g = bk_insert_sorted(pre, x, BkOrderCol::Sort, false);
        assert(out == g.push(s.last()));
        assert forall|i: int, j: int| 0 <= i < j < out.len() implies out[i].sort <= out[j].sort by {
            if j < g.len() {
                assert(out[i] == g[i] && out[j] == g[j]);
            } else {
                assert(out[j] == s.last());
                assert(out[i] == g[i]);
            }
        }
    }
}

/// The default sort leaves the rows in default order.
pub proof fn lemma_bk_sort_default_sorted(s: Seq<BookmarkV>)
    ensures
        bk_sorted_default(bk_sort_spec(s, BkOrderCol::Sort, false)),
    decreases s.len(),
{
    if s.len() > 0 {
        lemma_bk_sort_default_sorted(s.drop_last());
        lemma_bk_insert_sorted_default(bk_sort_spec(s.drop_last(), BkOrderCol::Sort, false), s.last());
    }
}

/// Law: a query with no filters and no pagination returns every persisted
/// row — the same multiset of rows — in the entity's default order,
/// ascending by `sort`.
pub proof fn law_query_no_filters_bookmark(rows: Seq<BookmarkV>, q: BookmarkQueryV)
    requires
        q.folder is None,
        q.parent is None,
        q.url is None,
        q.name is None,
        q.order_by is None,
        q.page is None,
    ensures
        bk_query_spec(rows, q).to_multiset() == rows.to_multiset(),
        bk_sorted_default(bk_query_spec(rows, q)),
{
    assert forall|r: BookmarkV| bk_matches(r, q) by {}
    lemma_bk_filter_all(rows, q);
    assert(bk_order_of(q) == (BkOrderCol::Sort, false));
    lemma_bk_sort_multiset(rows, BkOrderCol::Sort, false);
    lemma_bk_sort_default_sorted(rows);
}

/// Law: an empty text in a substring filter is no filter at all — a query
/// whose `url` and `name` filters are empty or absent returns exactly what
/// the query with those filters absent returns.
pub proof fn law_empty_substring_filter_bookmark(
    rows: Seq<BookmarkV>,
    q1: BookmarkQueryV,
    q2: BookmarkQueryV,
)
    requires
        q1.url is None || q1.url == Some(Seq::<char>::empty()),
        q1.name is None || q1.name == Some(Seq::<char>::empty()),
        q2.url is None,
        q2.name is None,
        q1.folder == q2.folder,
        q1.parent == q2.parent,
        q1.page == q2.page,
        q1.page_size == q2.page_size,
        q1.order_by == q2.order_by,
        q1.order_desc == q2.order_desc,
    ensures
        bk_query_spec(rows, q1) == bk_query_spec(rows, q2),
{
    assert forall|r: BookmarkV| bk_matches(r, q1) == bk_matches(r, q2) by {}
    lemma_bk_filter_congruent(rows, q1, q2);
}

/// Law: a paginated query returns exactly one page-sized slice of what the
/// same query returns unpaginated.  With the slice bounds of
/// [`crate::rows::lemma_page_slice_bounds`], the first page holds
/// `min(size, N)` of the `N` matching rows
/// ([`crate::rows::lemma_first_page_len`]) and consecutive pages are
/// adjacent under the fixed ordering, with no overlap and no gap
/// ([`crate::rows::lemma_pages_adjacent`]).
pub proof fn law_pagination_bookmark(
    rows: Seq<BookmarkV>,
    q1: BookmarkQueryV,
    q0: BookmarkQueryV,
)
    requires
        q1.page is Some,
        q1.page_size matches Some(k) && k >= 1,
        q0.page is None,
        q0.url == q1.url,
        q0.name == q1.name,
        q0.folder == q1.folder,
        q0.parent == q1.parent,
        q0.order_by == q1.order_by,
        q0.order_desc == q1.order_desc,
    ensures
        bk_query_spec(rows, q1) == page_slice(
            bk_query_spec(rows, q0),
            q1.page->0 as int,
            q1.page_size->0 as int,
        ),
{
    assert forall|r: BookmarkV| bk_matches(r, q1) == bk_matches(r, q0) by {}
    lemma_bk_filter_congruent(rows, q1, q0);
    assert(bk_order_of(q1) == bk_order_of(q0));
}

/// Law: an order column outside the allow-list never errors and degrades
/// to the default order — the query returns exactly what it returns with
/// no order given.
pub proof fn law_unrecognized_order_bookmark(
    rows: Seq<BookmarkV>,
    q1: BookmarkQueryV,
    q2: BookmarkQueryV,
)
    requires
        q1.order_by matches Some(name) && name != "sort"@ && name != "name"@ && name != "date"@,
        q2.order_by is None,
        q1.url == q2.url,
        q1.name == q2.name,
        q1.folder == q2.folder,
        q1.parent == q2.parent,
        q1.page == q2.page,
        q1.page_size == q2.page_size,
    ensures
        bk_query_spec(rows, q1) == bk_query_spec(rows, q2),
{
    assert forall|r: BookmarkV| bk_matches(r, q1) == bk_matches(r, q2) by {}
    lemma_bk_filter_congruent(rows, q1, q2);
    assert(bk_order_of(q1) == (BkOrderCol::Sort, false));
    assert(bk_order_of(q2) == (BkOrderCol::Sort, false));
}

/// An unrestricted download filter keeps the table as it is.
proof fn lemma_dl_filter_all(rows: Seq<DownloadV>)
    ensures
        crate::download::dl_filter_spec(rows, DlFilterV::All) == rows,
    decreases rows.len(),
{
    reveal_with_fuel(Seq::filter, 2);
    if rows.len() > 0 {
        lemma_dl_filter_all(rows.drop_last());
        assert(dl_matches(rows.last(), DlFilterV::All));
        assert(crate::download::dl_filter_spec(rows, DlFilterV::All) == rows.drop_last().push(
            rows.last(),
        ));
        assert(rows.drop_last().push(rows.last()) =~= rows);
    }
}

/// Inserting one row adds exactly that row to the listing's multiset.
proof fn lemma_dl_insert_sorted_multiset(s: Seq<DownloadV>, x: DownloadV)
    ensures
        dl_insert_sorted(s, x).to_multiset() == s.to_multiset().insert(x),
    decreases s.len(),
{
    broadcast use vstd::seq_lib::group_to_multiset_ensures;

    if s.len() == 0 {
        assert(dl_insert_sorted(s, x) =~= seq![x]);
        assert(Seq::<DownloadV>::empty().push(x) =~= seq![x]);
        assert(s.to_multiset() =~= Seq::<DownloadV>::empty().to_multiset());
    } else if dl_before(s.last(), x) {
    } else {
        let pre = s.drop_last();
        lemma_dl_insert_sorted_multiset(pre, x);
        assert(dl_insert_sorted(s, x) == dl_insert_sorted(pre, x).push(s.last()));
        assert(pre.push(s.last()) =~= s);
        assert(s.to_multiset() == pre.to_multiset().insert(s.last()));
        assert(pre.to_multiset().insert(x).insert(s.last()) =~= pre.to_multiset().insert(
            s.last(),
        ).insert(x));
    }
}

/// The download listing's sort keeps the multiset of rows.
proof fn lemma_dl_sort_multiset(s: Seq<DownloadV>)
    ensures
        dl_sort_spec(s).to_multiset() == s.to_multiset(),
    decreases s.len(),
{
    broadcast use vstd::seq_lib::group_to_multiset_ensures;

    if s.len() > 0 {
        let pre = s.drop_last();
        lemma_dl_sort_multiset(pre);
        lemma_dl_insert_sorted_multiset(dl_sort_spec(pre), s.last());
        assert(pre.push(s.last()) =~= s);
        assert(s.to_multiset() == pre.to_multiset().insert(s.last()));
    }
}

/// The rows are in the download listings' default order: by start time,
/// newest first.
pub open spec fn dl_sorted_default(s: Seq<DownloadV>) -> bool {
    forall|i: int, j: int| 0 <= i < j < s.len() ==> s[i].start_time >= s[j].start_time
}

/// Every start time of an insertion's result stays at or above any lower
/// bound the sorted rows and the new row respected.
proof fn lemma_dl_insert_sorted_key_bound(s: Seq<DownloadV>, x: DownloadV, b: i64)
    requires
        forall|i: int| 0 <= i < s.len() ==> (#[trigger] s[i]).start_time >= b,
        x.start_time >= b,
    ensures
        forall|i: int|
            0 <= i < dl_insert_sorted(s, x).len() ==> (#[trigger] dl_insert_sorted(s, x)[
            i]).start_time >= b,
    decreases s.len(),
{
    let out = dl_insert_sorted(s, x);
    if s.len() == 0 {
        assert(out =~= seq![x]);
    } else if dl_before(s.last(), x) {
        assert(out == s.push(x));
    } else {
        let pre = s.drop_last();
        assert forall|i: int| 0 <= i < pre.len() implies (#[trigger] pre[i]).start_time >= b by {
            assert(pre[i] == s[i]);
        }
        lemma_dl_insert_sorted_key_bound(pre, x, b);
        let g = dl_insert_sorted(pre, x);
        assert(out == g.push(s.last()));
        assert forall|i: int| 0 <= i < out.len() implies (#[trigger] out[i]).start_time >= b by {
            if i < g.len() {
                assert(out[i] == g[i]);
            } else {
                assert(out[i] == s.last());
            }
        }
    }
}

/// Inserting into rows in the listings' order keeps them in that order.
proof fn lemma_dl_insert_sorted_default(s: Seq<DownloadV>, x: DownloadV)
    requires
        dl_sorted_default(s),
    ensures
        dl_sorted_default(dl_insert_sorted(s, x)),
    decreases s.len(),
{
    let out = dl_insert_sorted(s, x);
    if s.len() == 0 {
        assert(out =~= seq![x]);
    } else if dl_before(s.last(), x) {
        assert(out == s.push(x));
        assert forall|i: int, j: int| 0 <= i < j < out.len() implies out[i].start_time
            >= out[j].start_time by {
            if j < s.len() {
                assert(out[i] == s[i] && out[j] == s[j]);
            } else {
                assert(out[j] == x);
                if i < s.len() - 1 {
                    assert(s[i].start_time >= s[s.len() - 1].start_time);
                }
                assert(s.last().start_time >= x.start_time);
            }
        }
    } else {
        let pre = s.drop_last();
        assert forall|i: int, j: int| 0 <= i < j < pre.len() implies pre[i].start_time
            >= pre[j].start_time by {
            assert(pre[i] == s[i] && pre[j] == s[j]);
        }
        lemma_dl_insert_sorted_default(pre, x);
        assert forall|i: int| 0 <= i < pre.len() implies (#[trigger] pre[i]).start_time
            >= s.last().start_time by {
            assert(pre[i] == s[i]);
        }
        assert(x.start_time >= s.last().start_time);
        lemma_dl_insert_sorted_key_bound(pre, x, s.last().start_time);
        let g = dl_insert_sorted(pre, x);
        assert(out == g.push(s.last()));
        assert forall|i: int, j: int| 0 <= i < j < out.len() implies out[i].start_time
            >= out[j].start_time by {
            if j < g.len() {
                assert(out[i] == g[i] && out[j] == g[j]);
            } else {
                assert(out[j] == s.last());
                assert(out[i] == g[i]);
            }
        }
    }
}

/// The download listings' sort leaves the rows newest first.
proof fn lemma_dl_sort_default_sorted(s: Seq<DownloadV>)
    ensures
        dl_sorted_default(dl_sort_spec(s)),
    decreases s.len(),
{
    if s.len() > 0 {
        lemma_dl_sort_default_sorted(s.drop_last());
        lemma_dl_insert_sorted_default(dl_sort_spec(s.drop_last()), s.last());
    }
}

/// Law: an unfiltered download listing returns every persisted row — the
/// same multiset of rows — in the entity's default order, by start time,
/// newest first.
pub proof fn law_listing_no_filters_download(rows: Seq<DownloadV>)
    ensures
        dl_listing_spec(rows, DlFilterV::All).to_multiset() == rows.to_multiset(),
        dl_sorted_default(dl_listing_spec(rows, DlFilterV::All)),
{
    lemma_dl_filter_all(rows);
    lemma_dl_sort_multiset(rows);
    lemma_dl_sort_default_sorted(rows);
}

} // verus!
