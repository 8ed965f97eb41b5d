use vstd::prelude::*;

verus! {

/// One persisted bookmark row.
#[derive(Debug, Clone, PartialEq)]
pub struct Bookmark {
    pub id: i64,
    pub sort: i64,
    pub folder: i64,
    pub parent: i64,
    pub url: String,
    pub name: String,
    pub icon: String,
    pub date: i64,
}

/// The fields of a bookmark without its identifier, as handed to a save.
#[derive(Debug, Clone, PartialEq)]
pub struct BookmarkData {
    pub sort: i64,
    pub folder: i64,
    pub parent: i64,
    pub url: String,
    pub name: String,
    pub icon: String,
    pub date: i64,
}

/// A save request: an absent identifier creates a row, a present one
/// updates the row with that identifier.
#[derive(Debug, Clone)]
pub struct BookmarkDataReq {
    pub id: Option<i64>,
    pub data: BookmarkData,
}

/// A declarative bookmark query: optional equality filters on `folder` and
/// `parent`, optional substring filters on `url` and `name`, an optional
/// ordering column with direction, and optional 1-based pagination.
#[derive(Debug, Clone)]
pub struct BookmarkQueryReq {
    pub url: Option<String>,
    pub name: Option<String>,
    pub folder: Option<i64>,
    pub parent: Option<i64>,
    pub page: Option<i32>,
    pub page_size: Option<i32>,
    pub order_by: Option<String>,
    pub order_desc: Option<bool>,
}

/// The mathematical value of one bookmark row.
pub ghost struct BookmarkV {
    pub id: i64,
    pub sort: i64,
    pub folder: i64,
    pub parent: i64,
    pub url: Seq<char>,
    pub name: Seq<char>,
    pub icon: Seq<char>,
    pub date: i64,
}

/// The mathematical value of the fields of a bookmark.
pub ghost struct BookmarkDataV {
    pub sort: i64,
    pub folder: i64,
    pub parent: i64,
    pub url: Seq<char>,
    pub name: Seq<char>,
    pub icon: Seq<char>,
    pub date: i64,
}

/// The mathematical value of a bookmark query request.
pub ghost struct BookmarkQueryV {
    pub url: Option<Seq<char>>,
    pub name: Option<Seq<char>>,
    pub folder: Option<i64>,
    pub parent: Option<i64>,
    pub page: Option<i32>,
    pub page_size: Option<i32>,
    pub order_by: Option<Seq<char>>,
    pub order_desc: Option<bool>,
}

impl View for Bookmark {
    type V = BookmarkV;

    open spec fn view(&self) -> BookmarkV {
        BookmarkV {
            id: self.id,
            sort: self.sort,
            folder: self.folder,
            parent: self.parent,
            url: self.url@,
            name: self.name@,
            icon: self.icon@,
            date: self.date,
        }
    }
}

impl View for BookmarkData {
    type V = BookmarkDataV;

    open spec fn view(&self) -> BookmarkDataV {
        BookmarkDataV {
            sort: self.sort,
            folder: self.folder,
            parent: self.parent,
            url: self.url@,
            name: self.name@,
            icon: self.icon@,
            date: self.date,
        }
    }
}

impl View for BookmarkQueryReq {
    type V = BookmarkQueryV;

    open spec fn view(&self) -> BookmarkQueryV {
        BookmarkQueryV {
            url: match self.url {
                Some(ref s) => Some(s@),
                None => None,
            },
            name: match self.name {
                Some(ref s) => Some(s@),
                None => None,
            },
            folder: self.folder,
            parent: self.parent,
            page: self.page,
            page_size: self.page_size,
            order_by: match self.order_by {
                Some(ref s) => Some(s@),
                None => None,
            },
            order_desc: self.order_desc,
        }
    }
}

/// The row that a save with identifier `id` and fields `d` persists.
pub open spec fn bk_row(id: i64, d: BookmarkDataV) -> BookmarkV {
    BookmarkV {
        id: id,
        sort: d.sort,
        folder: d.folder,
        parent: d.parent,
        url: d.url,
        name: d.name,
        icon: d.icon,
        date: d.date,
    }
}

/// The identifier projection of a bookmark row.
pub open spec fn bk_id_of() -> spec_fn(BookmarkV) -> i64 {
    |r: BookmarkV| r.id
}

/// Well-formedness of the bookmark table: identifiers are positive and
/// strictly increasing in row order, hence unique.
pub open spec fn bk_wf(rows: Seq<BookmarkV>) -> bool {
    crate::table::tbl_wf(rows, bk_id_of())
}

/// The first row carrying identifier `id`, if any.
pub open spec fn bk_find(rows: Seq<BookmarkV>, id: i64) -> Option<BookmarkV> {
    crate::table::tbl_find(rows, bk_id_of(), id)
}

/// Every row carrying identifier `id` replaced by the fields `d`; other rows
/// are untouched.
pub open spec fn bk_update_rows(rows: Seq<BookmarkV>, id: i64, d: BookmarkDataV) -> Seq<
    BookmarkV,
> {
    crate::table::tbl_update(rows, bk_id_of(), id, bk_row(id, d))
}

/// The table without the rows carrying identifier `id`.
pub open spec fn bk_delete_rows(rows: Seq<BookmarkV>, id: i64) -> Seq<BookmarkV> {
    crate::table::tbl_delete(rows, bk_id_of(), id)
}

/// The views of a sequence of bookmark records.
pub open spec fn bk_views(v: Seq<Bookmark>) -> Seq<BookmarkV> {
    v.map_values(|b: Bookmark| b@)
}

/// Whether a row passes every filter of the query: present equality filters
/// must match exactly, and present, non-empty substring filters must occur
/// in the row's field.  An empty substring filter is no filter at all.
/// Substring search compares code points, so it is case-sensitive.
pub open spec fn bk_matches(r: BookmarkV, q: BookmarkQueryV) -> bool {
    &&& (q.folder matches Some(f) ==> r.folder == f)
    &&& (q.parent matches Some(p) ==> r.parent == p)
    &&& (q.url matches Some(u) ==> u.len() == 0 || crate::strutil::contains_seq(r.url, u))
    &&& (q.name matches Some(n) ==> n.len() == 0 || crate::strutil::contains_seq(r.name, n))
}

/// The rows that pass the query's filters, in table order.
pub open spec fn bk_filter_spec(rows: Seq<BookmarkV>, q: BookmarkQueryV) -> Seq<BookmarkV> {
    rows.filter(|r: BookmarkV| bk_matches(r, q))
}

/// A sortable bookmark column.
#[derive(Clone, Copy, Debug)]
pub enum BkOrderCol {
    Sort,
    Name,
    Date,
}

/// The ordering a query resolves to: a column of the allow-list `sort`,
/// `name`, `date` with the requested direction; no ordering given, or an
/// unrecognized column name, falls back to the default `sort` ascending.
pub open spec fn bk_order_of(q: BookmarkQueryV) -> (BkOrderCol, bool) {
    match q.order_by {
        Option::None => (BkOrderCol::Sort, false),
        Option::Some(name) => {
            let desc = q.order_desc == Some(true);
            if name == "sort"@ {
                (BkOrderCol::Sort, desc)
            } else if name == "name"@ {
                (BkOrderCol::Name, desc)
            } else if name == "date"@ {
                (BkOrderCol::Date, desc)
            } else {
                (BkOrderCol::Sort, false)
            }
        },
    }
}

/// Whether `a`'s key is at or below `b`'s in the given column.
pub open spec fn bk_key_le(a: BookmarkV, b: BookmarkV, col: BkOrderCol) -> bool {
    match col {
        BkOrderCol::Sort => a.sort <= b.sort,
        BkOrderCol::Name => crate::strutil::lex_le(a.name, b.name),
        BkOrderCol::Date => a.date <= b.date,
    }
}

/// Whether `a` may stay at or before `b` under the resolved ordering.
pub open spec fn bk_before(a: BookmarkV, b: BookmarkV, col: BkOrderCol, desc: bool) -> bool {
    if desc {
        bk_key_le(b, a, col)
    } else {
        bk_key_le(a, b, col)
    }
}

/// `x` inserted into `s` after every element that may stay before it, so a
/// run of equal keys keeps its arrival order.
pub open spec fn bk_insert_sorted(
    s: Seq<BookmarkV>,
    x: BookmarkV,
    col: BkOrderCol,
    desc: bool,
) -> Seq<BookmarkV>
    decreases s.len(),
{
    if s.len() == 0 {
        seq![x]
    } else if bk_before(s.last(), x, col, desc) {
        s.push(x)
    } else {
        bk_insert_sorted(s.drop_last(), x, col, desc).push(s.last())
    }
}

/// The stable sort of `s` under the resolved ordering: each row inserted in
/// turn behind its equals.
pub open spec fn bk_sort_spec(s: Seq<BookmarkV>, col: BkOrderCol, desc: bool) -> Seq<BookmarkV>
    decreases s.len(),
{
    if s.len() == 0 {
        Seq::empty()
    } else {
        bk_insert_sorted(bk_sort_spec(s.drop_last(), col, desc), s.last(), col, desc)
    }
}

/// What a query returns from the rows of the table: the matching rows, in
/// the resolved order, cut to the requested page.  Pagination applies only
/// when page and page size are both given and the size is positive.
pub open spec fn bk_query_spec(rows: Seq<BookmarkV>, q: BookmarkQueryV) -> Seq<BookmarkV> {
    let ord = bk_order_of(q);
    let sorted = bk_sort_spec(bk_filter_spec(rows, q), ord.0, ord.1);
    if q.page is Some && q.page_size is Some && q.page_size->0 >= 1 {
        crate::rows::page_slice(sorted, q.page->0 as int, q.page_size->0 as int)
    } else {
        sorted
    }
}

/// Whether `b` passes every filter of `req`.
fn bk_matches_exec(b: &Bookmark, req: &BookmarkQueryReq) -> (r: bool)
    ensures
        r == bk_matches(b@, req@),
{
    let folder_ok = match &req.folder {
        Some(f) => b.folder == *f,
        None => true,
    };
    let parent_ok = match &req.parent {
        Some(p) => b.parent == *p,
        None => true,
    };
    let url_ok = match &req.url {
        Some(u) => u.as_str().is_empty() || crate::strutil::str_contains(
            b.url.as_str(),
            u.as_str(),
        ),
        None => true,
    };
    let name_ok = match &req.name {
        Some(n) => n.as_str().is_empty() || crate::strutil::str_contains(
            b.name.as_str(),
            n.as_str(),
        ),
        None => true,
    };
    folder_ok && parent_ok && url_ok && name_ok
}

/// Keep the rows that pass the query's filters, in order.
fn bk_filter(v: Vec<Bookmark>, req: &BookmarkQueryReq) -> (r: Vec<Bookmark>)
    ensures
        bk_views(r@) == bk_filter_spec(bk_views(v@), req@),
{
    let ghost orig = v@;
    let total = v.len();
    let mut v = v;
    let mut out: Vec<Bookmark> = Vec::new();
    let mut k: usize = 0;
    proof {
        assert(orig.skip(0) =~= orig);
        assert(bk_views(orig.take(0)) =~= Seq::<BookmarkV>::empty());
    }
    while v.len() > 0
        invariant
            orig.len() == total,
            k + v@.len() == orig.len(),
            v@ == orig.skip(k as int),
            bk_views(out@) == bk_filter_spec(bk_views(orig.take(k as int)), req@),
        decreases v@.len(),
    {
        proof {
            assert(orig.skip(k as int)[0] == orig[k as int]);
            assert(orig.skip(k as int).remove(0) =~= orig.skip(k as int + 1));
        }
        let x = v.remove(0);
        let ghost prev = bk_views(out@);
        if bk_matches_exec(&x, req) {
            out.push(x);
            proof {
                assert(bk_views(out@) =~= prev.push(x@));
            }
        }
        proof {
            reveal_with_fuel(Seq::filter, 2);
            let q = req@;
            let taken = bk_views(orig.take(k as int + 1));
            let upto = bk_views(orig.take(k as int));
            assert(taken.drop_last() =~= upto);
            assert(taken.last() == x@);
            assert(taken.len() > 0);
            assert(bk_filter_spec(taken, q) == if bk_matches(x@, q) {
                bk_filter_spec(upto, q).push(x@)
            } else {
                bk_filter_spec(upto, q)
            });
        }
        k += 1;
    }
    proof {
        assert(orig.take(orig.len() as int) =~= orig);
    }
    out
}

/// Resolve the query's ordering against the allow-list.
fn bk_resolve_order(req: &BookmarkQueryReq) -> (r: (BkOrderCol, bool))
    ensures
        r == bk_order_of(req@),
{
    match &req.order_by {
        None => (BkOrderCol::Sort, false),
        Some(s) => {
            let desc = match req.order_desc {
                Some(d) => d,
                None => false,
            };
            if crate::strutil::string_is(s, "sort") {
                (BkOrderCol::Sort, desc)
            } else if crate::strutil::string_is(s, "name") {
                (BkOrderCol::Name, desc)
            } else if crate::strutil::string_is(s, "date") {
                (BkOrderCol::Date, desc)
            } else {
                (BkOrderCol::Sort, false)
            }
        },
    }
}

/// Whether `a` may stay at or before `b` under the resolved ordering.
fn bk_before_exec(a: &Bookmark, b: &Bookmark, col: BkOrderCol, desc: bool) -> (r: bool)
    ensures
        r == bk_before(a@, b@, col, desc),
{
    let (x, y) = if desc {
        (b, a)
    } else {
        (a, b)
    };
    match col {
        BkOrderCol::Sort => x.sort <= y.sort,
        BkOrderCol::Name => crate::strutil::str_le(x.name.as_str(), y.name.as_str()),
        BkOrderCol::Date => x.date <= y.date,
    }
}

/// Stable insertion sort under the resolved ordering.
fn bk_sort(v: Vec<Bookmark>, col: BkOrderCol, desc: bool) -> (r: Vec<Bookmark>)
    ensures
        bk_views(r@) == bk_sort_spec(bk_views(v@), col, desc),
{
    let ghost orig = v@;
    let total = v.len();
    let mut v = v;
    let mut out: Vec<Bookmark> = Vec::new();
    let mut k: usize = 0;
    proof {
        assert(orig.skip(0) =~= orig);
        assert(bk_views(orig.take(0)) =~= Seq::<BookmarkV>::empty());
    }
    while v.len() > 0
        invariant
            orig.len() == total,
            k + v@.len() == orig.len(),
            v@ == orig.skip(k as int),
            bk_views(out@) == bk_sort_spec(bk_views(orig.take(k as int)), col, desc),
        decreases v@.len(),
    {
        proof {
            assert(orig.skip(k as int)[0] == orig[k as int]);
            assert(orig.skip(k as int).remove(0) =~= orig.skip(k as int + 1));
        }
        let x = v.remove(0);
        let ghost outv = bk_views(out@);
        let ghost xv = x@;
        let mut j: usize = out.len();
        proof {
            assert(outv.take(outv.len() as int) =~= outv);
            assert(outv.skip(outv.len() as int) =~= Seq::<BookmarkV>::empty());
            assert(bk_insert_sorted(outv, xv, col, desc) + Seq::<BookmarkV>::empty()
                =~= bk_insert_sorted(outv, xv, col, desc));
        }
        while j > 0 && !bk_before_exec(&out[j - 1], &x, col, desc)
            invariant
                j <= out.len(),
                outv == bk_views(out@),
                xv == x@,
                out@.len() == outv.len(),
                bk_insert_sorted(outv, xv, col, desc) == bk_insert_sorted(
                    outv.take(j as int),
                    xv,
                    col,
                    desc,
                ) + outv.skip(j as int),
            decreases j,
        {
            proof {
                let t = outv.take(j as int);
                assert(t.last() == outv[j as int - 1]);
                assert(outv[j as int - 1] == out@[j as int - 1]@);
                assert(!bk_before(t.last(), xv, col, desc));
                assert(bk_insert_sorted(t, xv, col, desc) == bk_insert_sorted(
                    t.drop_last(),
                    xv,
                    col,
                    desc,
                ).push(t.last()));
                assert(t.drop_last() =~= outv.take(j as int - 1));
                assert(outv.skip(j as int - 1) =~= seq![outv[j as int - 1]] + outv.skip(j as int));
                assert(bk_insert_sorted(outv.take(j as int - 1), xv, col, desc).push(
                    outv[j as int - 1],
                ) + outv.skip(j as int) =~= bk_insert_sorted(outv.take(j as int - 1), xv, col, desc)
                    + outv.skip(j as int - 1));
            }
            j -= 1;
        }
        proof {
            let t = outv.take(j as int);
            if j > 0 {
                assert(t.last() == outv[j as int - 1]);
                assert(outv[j as int - 1] == out@[j as int - 1]@);
                assert(bk_before(t.last(), xv, col, desc));
                assert(bk_insert_sorted(t, xv, col, desc) == t.push(xv));
            } else {
                assert(t =~= Seq::<BookmarkV>::empty());
                assert(bk_insert_sorted(t, xv, col, desc) =~= seq![xv]);
                assert(t.push(xv) =~= seq![xv]);
            }
            assert(bk_insert_sorted(outv, xv, col, desc) =~= outv.take(j as int).push(xv)
                + outv.skip(j as int));
            assert(outv.take(j as int).push(xv) + outv.skip(j as int) =~= outv.insert(
                j as int,
                xv,
            ));
        }
        out.insert(j, x);
        proof {
            assert(bk_views(out@) =~= outv.insert(j as int, xv));
            let taken = bk_views(orig.take(k as int + 1));
            assert(taken.drop_last() =~= bk_views(orig.take(k as int)));
            assert(taken.last() == xv);
            assert(taken.len() > 0);
            assert(bk_sort_spec(taken, col, desc) == bk_insert_sorted(
                bk_sort_spec(bk_views(orig.take(k as int)), col, desc),
                xv,
                col,
                desc,
            ));
        }
        k += 1;
    }
    proof {
        assert(orig.take(orig.len() as int) =~= orig);
    }
    out
}

/// The first record carrying `id`, moved out of the fetched rows.
pub(crate) fn bk_find_exec(v: Vec<Bookmark>, id: i64) -> (r: Option<Bookmark>)
    ensures
        r matches Some(b) ==> bk_find(bk_views(v@), id) == Some(b@),
        r is None ==> bk_find(bk_views(v@), id) is None,
{
    let mut rest = v;
    while rest.len() > 0
        invariant
            bk_find(bk_views(v@), id) == bk_find(bk_views(rest@), id),
        decreases rest@.len(),
    {
        let ghost cur = bk_views(rest@);
        let x = rest.remove(0);
        proof {
            assert(cur[0] == x@);
            assert(rest@.map_values(|b: Bookmark| b@) =~= cur.drop_first());
        }
        if x.id == id {
            proof {
                assert(bk_id_of()(cur[0]) == id);
                assert(bk_find(cur, id) == Some(cur[0]));
            }
            return Some(x);
        }
        proof {
            assert(bk_id_of()(cur[0]) != id);
            assert(bk_find(cur, id) == bk_find(cur.drop_first(), id));
        }
    }
    proof {
        assert(bk_views(rest@) =~= Seq::<BookmarkV>::empty());
    }
    None
}

/// Evaluate a query over the rows of the table: filter, order, paginate.
pub(crate) fn bk_eval_query(v: Vec<Bookmark>, req: &BookmarkQueryReq) -> (r: Vec<Bookmark>)
    ensures
        bk_views(r@) == bk_query_spec(bk_views(v@), req@),
{
    let filtered = bk_filter(v, req);
    let ord = bk_resolve_order(req);
    let sorted = bk_sort(filtered, ord.0, ord.1);
    match (req.page, req.page_size) {
        (Some(p), Some(ps)) => {
            if ps >= 1 {
                let paged = crate::rows::paginate(sorted, p, ps);
                proof {
                    assert(bk_views(paged@) =~= crate::rows::page_slice(
                        bk_views(sorted@),
                        p as int,
                        ps as int,
                    ));
                }
                paged
            } else {
                sorted
            }
        },
        _ => sorted,
    }
}

/// The connection to the bookmark database.  The sequence of persisted rows
/// behind it, in identifier order, is named by [`bk_rows`]; everything the
/// rest of the library knows about it is stated by the trusted wrappers
/// below, which hold this module's only SQL.
pub struct BookmarkDb {
    conn: rusqlite::Connection,
}

/// The rows of the bookmark table behind `db`, in identifier order.
pub uninterp spec fn bk_rows(db: BookmarkDb) -> Seq<BookmarkV>;

/// Relies on `rusqlite::Connection::open` and `Connection::execute`: opens
/// the database file, creating it if absent, and issues a
/// `CREATE TABLE IF NOT EXISTS` for the bookmark table.  The rows of an
/// existing table — written only by the inserts below, whose engine-assigned
/// `INTEGER PRIMARY KEY AUTOINCREMENT` identifiers are positive, unique and
/// increasing — are kept; a fresh table is empty.  Either way the table is
/// well-formed.
#[verifier::external_body]
pub(crate) fn bk_open(path: &str) -> (r: Result<BookmarkDb, rusqlite::Error>)
    ensures
        r matches Ok(db) ==> bk_wf(bk_rows(db)),
{
    let conn = rusqlite::Connection::open(path)?;
    conn.execute(
        "CREATE TABLE IF NOT EXISTS bookmark (id INTEGER NOT NULL PRIMARY KEY AUTOINCREMENT, sort INTEGER NOT NULL DEFAULT 0, folder INTEGER NOT NULL DEFAULT 0, parent INTEGER NOT NULL DEFAULT 0, url TEXT NOT NULL, name TEXT NOT NULL, icon TEXT NOT NULL, date INTEGER NOT NULL)",
        [],
    )?;
    Ok(BookmarkDb { conn })
}

/// Relies on `rusqlite::Connection::execute` and
/// `Connection::last_insert_rowid`: a single `INSERT` appends one row whose
/// `AUTOINCREMENT` identifier is positive and larger than every identifier
/// the table has held, and `last_insert_rowid` returns it.  A failed
/// statement changes nothing.
#[verifier::external_body]
pub(crate) fn bk_insert(db: &mut BookmarkDb, d: &BookmarkData) -> (r: Result<
    i64,
    rusqlite::Error,
>)
    ensures
        r matches Ok(id) ==> id >= 1 && (forall|i: int|
            0 <= i < bk_rows(*old(db)).len() ==> #[trigger] bk_rows(*old(db))[i].id < id)
            && bk_rows(*final(db)) == bk_rows(*old(db)).push(bk_row(id, d@)),
        r is Err ==> bk_rows(*final(db)) == bk_rows(*old(db)),
{
    db.conn.execute(
        "INSERT INTO bookmark (sort, folder, parent, url, name, icon, date) VALUES (?1, ?2, ?3, ?4, ?5, ?6, ?7)",
        (d.sort, d.folder, d.parent, &d.url, &d.name, &d.icon, d.date),
    )?;
    Ok(db.conn.last_insert_rowid())
}

/// Relies on `rusqlite::Connection::execute`: a single `UPDATE ... WHERE
/// id = ?` rewrites the fields of exactly the rows carrying that identifier
/// and touches no other row.  A failed statement changes nothing.
#[verifier::external_body]
pub(crate) fn bk_update(db: &mut BookmarkDb, id: i64, d: &BookmarkData) -> (r: Result<
    (),
    rusqlite::Error,
>)
    ensures
        r is Ok ==> bk_rows(*final(db)) == bk_update_rows(bk_rows(*old(db)), id, d@),
        r is Err ==> bk_rows(*final(db)) == bk_rows(*old(db)),
{
    db.conn.execute(
        "UPDATE bookmark SET sort = ?1, folder = ?2, parent = ?3, url = ?4, name = ?5, icon = ?6, date = ?7 WHERE id = ?8",
        (d.sort, d.folder, d.parent, &d.url, &d.name, &d.icon, d.date, id),
    )?;
    Ok(())
}

/// Relies on `rusqlite::Connection::execute`: a single `DELETE ... WHERE
/// id = ?` removes exactly the rows carrying that identifier.  A failed
/// statement changes nothing.
#[verifier::external_body]
pub(crate) fn bk_delete(db: &mut BookmarkDb, id: i64) -> (r: Result<(), rusqlite::Error>)
    ensures
        r is Ok ==> bk_rows(*final(db)) == bk_delete_rows(bk_rows(*old(db)), id),
        r is Err ==> bk_rows(*final(db)) == bk_rows(*old(db)),
{
    db.conn.execute("DELETE FROM bookmark WHERE id = ?1", (id,))?;
    Ok(())
}

/// Relies on `rusqlite::Connection::prepare` and `Statement::query_map`: a
/// `SELECT` of the full column set with `ORDER BY id` returns every row of
/// the table, in identifier order.
#[verifier::external_body]
pub(crate) fn bk_select_all(db: &BookmarkDb) -> (r: Result<Vec<Bookmark>, rusqlite::Error>)
    ensures
        r matches Ok(v) ==> bk_views(v@) == bk_rows(*db),
{
    let mut stmt = db.conn.prepare(
        "SELECT id, sort, folder, parent, url, name, icon, date FROM bookmark ORDER BY id",
    )?;
    let rows = stmt.query_map([], |r| {
        Ok(Bookmark {
            id: r.get(0)?, sort: r.get(1)?, folder: r.get(2)?, parent: r.get(3)?,
            url: r.get(4)?, name: r.get(5)?, icon: r.get(6)?, date: r.get(7)?,
        })
    })?;
    rows.collect()
}

} // verus!
