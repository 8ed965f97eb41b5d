use vstd::prelude::*;

verus! {

/// The shared model of one entity's table: a sequence of rows in identifier
/// order, with `idf` projecting the identifier out of a row.  Each entity
/// module instantiates these definitions with its own row type.
///
/// Well-formedness: identifiers are positive and strictly increasing in row
/// order, hence unique.
pub open spec fn tbl_wf<T>(rows: Seq<T>, idf: spec_fn(T) -> i64) -> bool {
    &&& forall|i: int, j: int|
        0 <= i < j < rows.len() ==> idf(#[trigger] rows[i]) < idf(#[trigger] rows[j])
    &&& forall|i: int| 0 <= i < rows.len() ==> idf(#[trigger] rows[i]) >= 1
}

/// The first row carrying identifier `id`, if any.
pub open spec fn tbl_find<T>(rows: Seq<T>, idf: spec_fn(T) -> i64, id: i64) -> Option<T>
    decreases rows.len(),
{
    if rows.len() == 0 {
        None
    } else if idf(rows[0]) == id {
        Some(rows[0])
    } else {
        tbl_find(rows.drop_first(), idf, id)
    }
}

/// Every row carrying identifier `id` replaced by `repl`; other rows are
/// untouched.
pub open spec fn tbl_update<T>(rows: Seq<T>, idf: spec_fn(T) -> i64, id: i64, repl: T) -> Seq<
    T,
> {
    rows.map_values(
        |r: T|
            if idf(r) == id {
                repl
            } else {
                r
            },
    )
}

/// The table without the rows carrying identifier `id`: the subsequence of
/// rows whose identifier differs, in unchanged order.
pub open spec fn tbl_delete<T>(rows: Seq<T>, idf: spec_fn(T) -> i64, id: i64) -> Seq<T>
    decreases rows.len(),
{
    if rows.len() == 0 {
        Seq::empty()
    } else if idf(rows.last()) != id {
        tbl_delete(rows.drop_last(), idf, id).push(rows.last())
    } else {
        tbl_delete(rows.drop_last(), idf, id)
    }
}

/// A lookup of an identifier that no row carries misses.
pub proof fn lemma_tbl_find_absent<T>(rows: Seq<T>, idf: spec_fn(T) -> i64, id: i64)
    requires
        forall|i: int| 0 <= i < rows.len() ==> idf(#[trigger] rows[i]) != id,
    ensures
        tbl_find(rows, idf, id) is None,
    decreases rows.len(),
{
    if rows.len() > 0 {
        let rest = rows.drop_first();
        assert forall|i: int| 0 <= i < rest.len() implies idf(#[trigger] rest[i]) != id by {
            assert(rest[i] == rows[i + 1]);
        }
        lemma_tbl_find_absent(rest, idf, id);
    }
}

/// Looking a fresh identifier up right after its row was appended returns
/// that row.
pub proof fn lemma_tbl_find_after_insert<T>(rows: Seq<T>, idf: spec_fn(T) -> i64, r: T, id: i64)
    requires
        idf(r) == id,
        forall|i: int| 0 <= i < rows.len() ==> idf(#[trigger] rows[i]) != id,
    ensures
        tbl_find(rows.push(r), idf, id) == Some(r),
    decreases rows.len(),
{
    let s = rows.push(r);
    if rows.len() == 0 {
        assert(s[0] == r);
    } else {
        assert(s[0] == rows[0]);
        assert(idf(s[0]) != id);
        let rest = rows.drop_first();
        assert(s.drop_first() =~= rest.push(r));
        assert forall|i: int| 0 <= i < rest.len() implies idf(#[trigger] rest[i]) != id by {
            assert(rest[i] == rows[i + 1]);
        }
        lemma_tbl_find_after_insert(rest, idf, r, id);
    }
}

/// Looking an identifier up right after an update returns the replacement
/// exactly when a row carried the identifier before.
pub proof fn lemma_tbl_find_after_update<T>(rows: Seq<T>, idf: spec_fn(T) -> i64, id: i64, repl: T)
    requires
        idf(repl) == id,
    ensures
        tbl_find(tbl_update(rows, idf, id, repl), idf, id) == (match tbl_find(rows, idf, id) {
            Some(_) => Some(repl),
            None => None,
        }),
    decreases rows.len(),
{
    let u = tbl_update(rows, idf, id, repl);
    if rows.len() == 0 {
        assert(u =~= Seq::<T>::empty());
    } else {
        assert(u[0] == if idf(rows[0]) == id {
            repl
        } else {
            rows[0]
        });
        if idf(rows[0]) != id {
            assert(u.drop_first() =~= tbl_update(rows.drop_first(), idf, id, repl));
            lemma_tbl_find_after_update(rows.drop_first(), idf, id, repl);
        }
    }
}

/// No row of a deletion's result carries the deleted identifier.
proof fn lemma_tbl_delete_pred<T>(rows: Seq<T>, idf: spec_fn(T) -> i64, id: i64)
    ensures
        forall|i: int|
            0 <= i < tbl_delete(rows, idf, id).len() ==> idf(
                #[trigger] tbl_delete(rows, idf, id)[i],
            ) != id,
    decreases rows.len(),
{
    if rows.len() > 0 {
        let pre = rows.drop_last();
        lemma_tbl_delete_pred(pre, idf, id);
        let d = tbl_delete(rows, idf, id);
        let dp = tbl_delete(pre, idf, id);
        assert forall|i: int| 0 <= i < d.len() implies idf(#[trigger] d[i]) != id by {
            if idf(rows.last()) != id {
                assert(d == dp.push(rows.last()));
                if i < dp.len() {
                    assert(d[i] == dp[i]);
                } else {
                    assert(d[i] == rows.last());
                }
            } else {
                assert(d == dp);
            }
        }
    }
}

/// After a deletion, looking the deleted identifier up misses.
pub proof fn lemma_tbl_find_after_delete<T>(rows: Seq<T>, idf: spec_fn(T) -> i64, id: i64)
    ensures
        tbl_find(tbl_delete(rows, idf, id), idf, id) is None,
{
    lemma_tbl_delete_pred(rows, idf, id);
    lemma_tbl_find_absent(tbl_delete(rows, idf, id), idf, id);
}

/// A found row carries the identifier it was looked up by.
pub proof fn lemma_tbl_find_id<T>(rows: Seq<T>, idf: spec_fn(T) -> i64, id: i64)
    ensures
        tbl_find(rows, idf, id) matches Some(r) ==> idf(r) == id,
    decreases rows.len(),
{
    if rows.len() > 0 && idf(rows[0]) != id {
        lemma_tbl_find_id(rows.drop_first(), idf, id);
    }
}

/// Appending a row with a fresh, larger identifier keeps the table
/// well-formed.
pub proof fn lemma_tbl_wf_insert<T>(rows: Seq<T>, idf: spec_fn(T) -> i64, r: T)
    requires
        tbl_wf(rows, idf),
        idf(r) >= 1,
        forall|i: int| 0 <= i < rows.len() ==> idf(#[trigger] rows[i]) < idf(r),
    ensures
        tbl_wf(rows.push(r), idf),
{
}

/// An update keeps identifiers pointwise, so the table stays well-formed.
pub proof fn lemma_tbl_wf_update<T>(rows: Seq<T>, idf: spec_fn(T) -> i64, id: i64, repl: T)
    requires
        tbl_wf(rows, idf),
        idf(repl) == id,
    ensures
        tbl_wf(tbl_update(rows, idf, id, repl), idf),
{
    let u = tbl_update(rows, idf, id, repl);
    assert forall|i: int| 0 <= i < u.len() implies idf(#[trigger] u[i]) == idf(rows[i]) by {}
}

/// Every identifier in a deletion's result stays below any bound the
/// original table respected.
proof fn lemma_tbl_delete_ids_bound<T>(rows: Seq<T>, idf: spec_fn(T) -> i64, id: i64, b: i64)
    requires
        forall|i: int| 0 <= i < rows.len() ==> idf(#[trigger] rows[i]) < b,
    ensures
        forall|i: int|
            0 <= i < tbl_delete(rows, idf, id).len() ==> idf(
                #[trigger] tbl_delete(rows, idf, id)[i],
            ) < b,
    decreases rows.len(),
{
    if rows.len() > 0 {
        let pre = rows.drop_last();
        assert forall|i: int| 0 <= i < pre.len() implies idf(#[trigger] pre[i]) < b by {
            assert(pre[i] == rows[i]);
        }
        lemma_tbl_delete_ids_bound(pre, idf, id, b);
        let d = tbl_delete(rows, idf, id);
        let dp = tbl_delete(pre, idf, id);
        assert(idf(rows.last()) < b);
        assert forall|i: int| 0 <= i < d.len() implies idf(#[trigger] d[i]) < b by {
            if idf(rows.last()) != id {
                assert(d == dp.push(rows.last()));
                if i < dp.len() {
                    assert(d[i] == dp[i]);
                } else {
                    assert(d[i] == rows.last());
                }
            } else {
                assert(d == dp);
            }
        }
    }
}

/// A deletion keeps the remaining rows in order, so the table stays
/// well-formed.
pub proof fn lemma_tbl_wf_delete<T>(rows: Seq<T>, idf: spec_fn(T) -> i64, id: i64)
    requires
        tbl_wf(rows, idf),
    ensures
        tbl_wf(tbl_delete(rows, idf, id), idf),
    decreases rows.len(),
{
    if rows.len() > 0 {
        let pre = rows.drop_last();
        let last = rows.last();
        assert forall|i: int, j: int| 0 <= i < j < pre.len() implies idf(#[trigger] pre[i]) < idf(
            #[trigger] pre[j],
        ) by {
            assert(pre[i] == rows[i] && pre[j] == rows[j]);
        }
        assert forall|i: int| 0 <= i < pre.len() implies idf(#[trigger] pre[i]) >= 1 by {
            assert(pre[i] == rows[i]);
        }
        lemma_tbl_wf_delete(pre, idf, id);
        assert forall|i: int| 0 <= i < pre.len() implies idf(#[trigger] pre[i]) < idf(last) by {
            assert(pre[i] == rows[i]);
        }
        lemma_tbl_delete_ids_bound(pre, idf, id, idf(last));
        if idf(last) != id {
            lemma_tbl_wf_insert(tbl_delete(pre, idf, id), idf, last);
        }
    }
}

/// In a well-formed table the identifier of each row is at least its
/// position plus one.
proof fn lemma_tbl_ids_ge_index<T>(rows: Seq<T>, idf: spec_fn(T) -> i64)
    requires
        tbl_wf(rows, idf),
    ensures
        forall|i: int| 0 <= i < rows.len() ==> idf(#[trigger] rows[i]) >= i + 1,
    decreases rows.len(),
{
    if rows.len() > 0 {
        let pre = rows.drop_last();
        assert forall|i: int, j: int| 0 <= i < j < pre.len() implies idf(#[trigger] pre[i]) < idf(
            #[trigger] pre[j],
        ) by {
            assert(pre[i] == rows[i] && pre[j] == rows[j]);
        }
        assert forall|i: int| 0 <= i < pre.len() implies idf(#[trigger] pre[i]) >= 1 by {
            assert(pre[i] == rows[i]);
        }
        lemma_tbl_ids_ge_index(pre, idf);
        assert forall|i: int| 0 <= i < rows.len() implies idf(#[trigger] rows[i]) >= i + 1 by {
            if i < rows.len() - 1 {
                assert(rows[i] == pre[i]);
            } else if rows.len() >= 2 {
                assert(rows[rows.len() - 2] == pre[rows.len() - 2]);
                assert(idf(rows[rows.len() - 2]) < idf(rows[i]));
            }
        }
    }
}

/// Identifiers are at most `i64::MAX`, so a well-formed table cannot hold
/// more rows than that.
pub proof fn lemma_tbl_len_bound<T>(rows: Seq<T>, idf: spec_fn(T) -> i64)
    requires
        tbl_wf(rows, idf),
    ensures
        rows.len() <= i64::MAX,
{
    lemma_tbl_ids_ge_index(rows, idf);
    if rows.len() > 0 {
        assert(idf(rows[rows.len() - 1]) >= rows.len());
    }
}

} // verus!
