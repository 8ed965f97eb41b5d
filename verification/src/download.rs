use vstd::prelude::*;

verus! {

use crate::table::{tbl_delete, tbl_find, tbl_update, tbl_wf};

/// One persisted download row.  An absent end time or mime type is stored
/// as an SQL `NULL`.
#[derive(Debug, Clone, PartialEq)]
pub struct Download {
    pub id: i64,
    pub url: String,
    pub file_name: String,
    pub file_path: String,
    pub file_size: i64,
    pub downloaded_size: i64,
    pub status: String,
    pub start_time: i64,
    pub end_time: Option<i64>,
    pub mime_type: Option<String>,
}

/// The mathematical value of one download row.
pub ghost struct DownloadV {
    pub id: i64,
    pub url: Seq<char>,
    pub file_name: Seq<char>,
    pub file_path: Seq<char>,
    pub file_size: i64,
    pub downloaded_size: i64,
    pub status: Seq<char>,
    pub start_time: i64,
    pub end_time: Option<i64>,
    pub mime_type: Option<Seq<char>>,
}

impl View for Download {
    type V = DownloadV;

    open spec fn view(&self) -> DownloadV {
        DownloadV {
            id: self.id,
            url: self.url@,
            file_name: self.file_name@,
            file_path: self.file_path@,
            file_size: self.file_size,
            downloaded_size: self.downloaded_size,
            status: self.status@,
            start_time: self.start_time,
            end_time: self.end_time,
            mime_type: match self.mime_type {
                Some(ref s) => Some(s@),
                None => None,
            },
        }
    }
}

/// The views of a sequence of download records.
pub open spec fn dl_views(v: Seq<Download>) -> Seq<DownloadV> {
    v.map_values(|d: Download| d@)
}

/// The identifier projection of a download row.
pub open spec fn dl_id_of() -> spec_fn(DownloadV) -> i64 {
    |r: DownloadV| r.id
}

/// The row that an insert of `d` persists under the fresh identifier `id`;
/// the identifier carried by the request itself is ignored.
pub open spec fn dl_row(id: i64, d: DownloadV) -> DownloadV {
    DownloadV { id: id, ..d }
}

/// Well-formedness of the download table.
pub open spec fn dl_wf(rows: Seq<DownloadV>) -> bool {
    tbl_wf(rows, dl_id_of())
}

/// The first row carrying identifier `id`, if any.
pub open spec fn dl_find(rows: Seq<DownloadV>, id: i64) -> Option<DownloadV> {
    tbl_find(rows, dl_id_of(), id)
}

/// Every row carrying identifier `id` replaced by the fields of `d`.
pub open spec fn dl_update_rows(rows: Seq<DownloadV>, id: i64, d: DownloadV) -> Seq<DownloadV> {
    tbl_update(rows, dl_id_of(), id, dl_row(id, d))
}

/// The table with the status of the row carrying `id` replaced, if there is
/// such a row.
pub open spec fn dl_set_status(rows: Seq<DownloadV>, id: i64, st: Seq<char>) -> Seq<DownloadV> {
    match tbl_find(rows, dl_id_of(), id) {
        Some(row) => tbl_update(rows, dl_id_of(), id, DownloadV { status: st, ..row }),
        None => rows,
    }
}

/// The table with the downloaded size of the row carrying `id` replaced, if
/// there is such a row.
pub open spec fn dl_set_size(rows: Seq<DownloadV>, id: i64, size: i64) -> Seq<DownloadV> {
    match tbl_find(rows, dl_id_of(), id) {
        Some(row) => tbl_update(
            rows,
            dl_id_of(),
            id,
            DownloadV { downloaded_size: size, ..row },
        ),
        None => rows,
    }
}

/// The table without the rows carrying identifier `id`.
pub open spec fn dl_delete_rows(rows: Seq<DownloadV>, id: i64) -> Seq<DownloadV> {
    tbl_delete(rows, dl_id_of(), id)
}

/// The filter of a download query.
pub enum DlFilter {
    /// Keep every row.
    All,
    /// Keep the rows whose status equals the given one exactly.
    WithStatus(String),
    /// Keep the rows whose file name or url holds the given text; an empty
    /// text keeps every row.
    Matching(String),
    /// Keep the rows still in progress: status `downloading` or `pending`.
    Active,
}

/// The mathematical value of a download filter.
pub ghost enum DlFilterV {
    All,
    WithStatus(Seq<char>),
    Matching(Seq<char>),
    Active,
}

impl View for DlFilter {
    type V = DlFilterV;

    open spec fn view(&self) -> DlFilterV {
        match self {
            DlFilter::All => DlFilterV::All,
            DlFilter::WithStatus(s) => DlFilterV::WithStatus(s@),
            DlFilter::Matching(s) => DlFilterV::Matching(s@),
            DlFilter::Active => DlFilterV::Active,
        }
    }
}

/// Whether a row passes the filter.  Substring search compares code points,
/// so it is case-sensitive.
pub open spec fn dl_matches(r: DownloadV, f: DlFilterV) -> bool {
    match f {
        DlFilterV::All => true,
        DlFilterV::WithStatus(s) => r.status == s,
        DlFilterV::Matching(kw) => crate::strutil::contains_seq(r.file_name, kw)
            || crate::strutil::contains_seq(r.url, kw),
        DlFilterV::Active => r.status == "downloading"@ || r.status == "pending"@,
    }
}

/// The rows that pass the filter, in table order.
pub open spec fn dl_filter_spec(rows: Seq<DownloadV>, f: DlFilterV) -> Seq<DownloadV> {
    rows.filter(|r: DownloadV| dl_matches(r, f))
}

/// Whether `a` may stay at or before `b`: download listings order by start
/// time, newest first.
pub open spec fn dl_before(a: DownloadV, b: DownloadV) -> bool {
    b.start_time <= a.start_time
}

/// `x` inserted into `s` after every element that may stay before it, so a
/// run of equal start times keeps its arrival order.
pub open spec fn dl_insert_sorted(s: Seq<DownloadV>, x: DownloadV) -> Seq<DownloadV>
    decreases s.len(),
{
    if s.len() == 0 {
        seq![x]
    } else if dl_before(s.last(), x) {
        s.push(x)
    } else {
        dl_insert_sorted(s.drop_last(), x).push(s.last())
    }
}

/// The stable sort of `s` by start time, newest first.
pub open spec fn dl_sort_spec(s: Seq<DownloadV>) -> Seq<DownloadV>
    decreases s.len(),
{
    if s.len() == 0 {
        Seq::empty()
    } else {
        dl_insert_sorted(dl_sort_spec(s.drop_last()), s.last())
    }
}

/// The rows a download listing returns before any pagination or limit: the
/// rows that pass the filter, by start time, newest first.
pub open spec fn dl_listing_spec(rows: Seq<DownloadV>, f: DlFilterV) -> Seq<DownloadV> {
    dl_sort_spec(dl_filter_spec(rows, f))
}

/// Whether `d` passes the filter.
fn dl_matches_exec(d: &Download, f: &DlFilter) -> (r: bool)
    ensures
        r == dl_matches(d@, f@),
{
    match f {
        DlFilter::All => true,
        DlFilter::WithStatus(s) => d.status.eq(s),
        DlFilter::Matching(kw) => crate::strutil::str_contains(
            d.file_name.as_str(),
            kw.as_str(),
        ) || crate::strutil::str_contains(d.url.as_str(), kw.as_str()),
        DlFilter::Active => crate::strutil::string_is(&d.status, "downloading")
            || crate::strutil::string_is(&d.status, "pending"),
    }
}

/// Keep the rows that pass the filter, in order.
fn dl_filter(v: Vec<Download>, f: &DlFilter) -> (r: Vec<Download>)
    ensures
        dl_views(r@) == dl_filter_spec(dl_views(v@), f@),
{
    let ghost orig = v@;
    let total = v.len();
    let mut v = v;
    let mut out: Vec<Download> = Vec::new();
    let mut k: usize = 0;
    proof {
        assert(orig.skip(0) =~= orig);
        assert(dl_views(orig.take(0)) =~= Seq::<DownloadV>::empty());
    }
    while v.len() > 0
        invariant
            orig.len() == total,
            k + v@.len() == orig.len(),
            v@ == orig.skip(k as int),
            dl_views(out@) == dl_filter_spec(dl_views(orig.take(k as int)), f@),
        decreases v@.len(),
    {
        proof {
            assert(orig.skip(k as int)[0] == orig[k as int]);
            assert(orig.skip(k as int).remove(0) =~= orig.skip(k as int + 1));
        }
        let x = v.remove(0);
        let ghost prev = dl_views(out@);
        if dl_matches_exec(&x, f) {
            out.push(x);
            proof {
                assert(dl_views(out@) =~= prev.push(x@));
            }
        }
        proof {
            reveal_with_fuel(Seq::filter, 2);
            let taken = dl_views(orig.take(k as int + 1));
            let upto = dl_views(orig.take(k as int));
            assert(taken.drop_last() =~= upto);
            assert(taken.last() == x@);
            assert(taken.len() > 0);
            assert(dl_filter_spec(taken, f@) == if dl_matches(x@, f@) {
                dl_filter_spec(upto, f@).push(x@)
            } else {
                dl_filter_spec(upto, f@)
            });
        }
        k += 1;
    }
    proof {
        assert(orig.take(orig.len() as int) =~= orig);
    }
    out
}

/// Whether `a` may stay at or before `b` in a listing.
fn dl_before_exec(a: &Download, b: &Download) -> (r: bool)
    ensures
        r == dl_before(a@, b@),
{
    b.start_time <= a.start_time
}

/// Stable insertion sort by start time, newest first.
fn dl_sort(v: Vec<Download>) -> (r: Vec<Download>)
    ensures
        dl_views(r@) == dl_sort_spec(dl_views(v@)),
{
    let ghost orig = v@;
    let total = v.len();
    let mut v = v;
    let mut out: Vec<Download> = Vec::new();
    let mut k: usize = 0;
    proof {
        assert(orig.skip(0) =~= orig);
        assert(dl_views(orig.take(0)) =~= Seq::<DownloadV>::empty());
    }
    while v.len() > 0
        invariant
            orig.len() == total,
            k + v@.len() == orig.len(),
            v@ == orig.skip(k as int),
            dl_views(out@) == dl_sort_spec(dl_views(orig.take(k as int))),
        decreases v@.len(),
    {
        proof {
            assert(orig.skip(k as int)[0] == orig[k as int]);
            assert(orig.skip(k as int).remove(0) =~= orig.skip(k as int + 1));
        }
        let x = v.remove(0);
        let ghost outv = dl_views(out@);
        let ghost xv = x@;
        let mut j: usize = out.len();
        proof {
            assert(outv.take(outv.len() as int) =~= outv);
            assert(outv.skip(outv.len() as int) =~= Seq::<DownloadV>::empty());
            assert(dl_insert_sorted(outv, xv) + Seq::<DownloadV>::empty() =~= dl_insert_sorted(
                outv,
                xv,
            ));
        }
        while j > 0 && !dl_before_exec(&out[j - 1], &x)
            invariant
                j <= out.len(),
                outv == dl_views(out@),
                xv == x@,
                out@.len() == outv.len(),
                dl_insert_sorted(outv, xv) == dl_insert_sorted(outv.take(j as int), xv)
                    + outv.skip(j as int),
            decreases j,
        {
            proof {
                let t = outv.take(j as int);
                assert(t.last() == outv[j as int - 1]);
                assert(outv[j as int - 1] == out@[j as int - 1]@);
                assert(!dl_before(t.last(), xv));
                assert(dl_insert_sorted(t, xv) == dl_insert_sorted(t.drop_last(), xv).push(
                    t.last(),
                ));
                assert(t.drop_last() =~= outv.take(j as int - 1));
                assert(outv.skip(j as int - 1) =~= seq![outv[j as int - 1]] + outv.skip(j as int));
                assert(dl_insert_sorted(outv.take(j as int - 1), xv).push(outv[j as int - 1])
                    + outv.skip(j as int) =~= dl_insert_sorted(outv.take(j as int - 1), xv)
                    + outv.skip(j as int - 1));
            }
            j -= 1;
        }
        proof {
            let t = outv.take(j as int);
            if j > 0 {
                assert(t.last() == outv[j as int - 1]);
                assert(outv[j as int - 1] == out@[j as int - 1]@);
                assert(dl_before(t.last(), xv));
                assert(dl_insert_sorted(t, xv) == t.push(xv));
            } else {
                assert(t =~= Seq::<DownloadV>::empty());
                assert(dl_insert_sorted(t, xv) =~= seq![xv]);
                assert(t.push(xv) =~= seq![xv]);
            }
            assert(dl_insert_sorted(outv, xv) =~= outv.take(j as int).push(xv) + outv.skip(
                j as int,
            ));
            assert(outv.take(j as int).push(xv) + outv.skip(j as int) =~= outv.insert(
                j as int,
                xv,
            ));
        }
        out.insert(j, x);
        proof {
            assert(dl_views(out@) =~= outv.insert(j as int, xv));
            let taken = dl_views(orig.take(k as int + 1));
            assert(taken.drop_last() =~= dl_views(orig.take(k as int)));
            assert(taken.last() == xv);
            assert(taken.len() > 0);
            assert(dl_sort_spec(taken) == dl_insert_sorted(
                dl_sort_spec(dl_views(orig.take(k as int))),
                xv,
            ));
        }
        k += 1;
    }
    proof {
        assert(orig.take(orig.len() as int) =~= orig);
    }
    out
}

/// The filtered rows, by start time, newest first.
pub(crate) fn dl_eval_listing(v: Vec<Download>, f: &DlFilter) -> (r: Vec<Download>)
    ensures
        dl_views(r@) == dl_listing_spec(dl_views(v@), f@),
{
    dl_sort(dl_filter(v, f))
}

/// The first record carrying `id`, moved out of the fetched rows.
pub(crate) fn dl_find_exec(v: Vec<Download>, id: i64) -> (r: Option<Download>)
    ensures
        r matches Some(d) ==> dl_find(dl_views(v@), id) == Some(d@),
        r is None ==> dl_find(dl_views(v@), id) is None,
{
    let mut rest = v;
    while rest.len() > 0
        invariant
            dl_find(dl_views(v@), id) == dl_find(dl_views(rest@), id),
        decreases rest@.len(),
    {
        let ghost cur = dl_views(rest@);
        let x = rest.remove(0);
        proof {
            assert(cur[0] == x@);
            assert(rest@.map_values(|d: Download| d@) =~= cur.drop_first());
        }
        if x.id == id {
            proof {
                assert(dl_id_of()(cur[0]) == id);
                assert(dl_find(cur, id) == Some(cur[0]));
            }
            return Some(x);
        }
        proof {
            assert(dl_id_of()(cur[0]) != id);
            assert(dl_find(cur, id) == dl_find(cur.drop_first(), id));
        }
    }
    proof {
        assert(dl_views(rest@) =~= Seq::<DownloadV>::empty());
    }
    None
}

/// The connection to the download database.  The sequence of persisted rows
/// behind it, in identifier order, is named by [`dl_rows`]; everything the
/// rest of the library knows about it is stated by the trusted wrappers
/// below, which hold this module's only SQL.
pub struct DownloadDb {
    conn: rusqlite::Connection,
}

/// The rows of the download table behind `db`, in identifier order.
pub uninterp spec fn dl_rows(db: DownloadDb) -> Seq<DownloadV>;

/// Relies on `rusqlite::Connection::open` and `Connection::execute`: opens
/// the database file, creating it if absent, and issues idempotent
/// `CREATE TABLE IF NOT EXISTS` and `CREATE INDEX IF NOT EXISTS`
/// statements.  The rows of an existing table — written only by the inserts
/// below, whose engine-assigned `INTEGER PRIMARY KEY AUTOINCREMENT`
/// identifiers are positive, unique and increasing — are kept; a fresh
/// table is empty.  Either way the table is well-formed.
#[verifier::external_body]
pub(crate) fn dl_open(path: &str) -> (r: Result<DownloadDb, rusqlite::Error>)
    ensures
        r matches Ok(db) ==> dl_wf(dl_rows(db)),
{
    let conn = rusqlite::Connection::open(path)?;
    conn.execute(
        "CREATE TABLE IF NOT EXISTS download (id INTEGER PRIMARY KEY AUTOINCREMENT, url TEXT NOT NULL, file_name TEXT NOT NULL, file_path TEXT NOT NULL, file_size INTEGER NOT NULL DEFAULT 0, downloaded_size INTEGER NOT NULL DEFAULT 0, status TEXT NOT NULL, start_time INTEGER NOT NULL, end_time INTEGER, mime_type TEXT)",
        [],
    )?;
    conn.execute("CREATE INDEX IF NOT EXISTS idx_download_status ON download(status)", [])?;
    conn.execute("CREATE INDEX IF NOT EXISTS idx_download_start_time ON download(start_time)", [])?;
    Ok(DownloadDb { conn })
}

/// Relies on `rusqlite::Connection::execute` and
/// `Connection::last_insert_rowid`: a single `INSERT` appends one row whose
/// `AUTOINCREMENT` identifier is positive and larger than every identifier
/// the table has held, and `last_insert_rowid` returns it.  A failed
/// statement changes nothing.
#[verifier::external_body]
pub(crate) fn dl_insert(db: &mut DownloadDb, d: &Download) -> (r: Result<i64, rusqlite::Error>)
    ensures
        r matches Ok(id) ==> id >= 1 && (forall|i: int|
            0 <= i < dl_rows(*old(db)).len() ==> #[trigger] dl_rows(*old(db))[i].id < id)
            && dl_rows(*final(db)) == dl_rows(*old(db)).push(dl_row(id, d@)),
        r is Err ==> dl_rows(*final(db)) == dl_rows(*old(db)),
{
    db.conn.execute(
        "INSERT INTO download (url, file_name, file_path, file_size, downloaded_size, status, start_time, end_time, mime_type) VALUES (?1, ?2, ?3, ?4, ?5, ?6, ?7, ?8, ?9)",
        (&d.url, &d.file_name, &d.file_path, d.file_size, d.downloaded_size, &d.status,
            d.start_time, d.end_time, &d.mime_type),
    )?;
    Ok(db.conn.last_insert_rowid())
}

/// Relies on `rusqlite::Connection::execute`: a single `UPDATE ... WHERE
/// id = ?` rewrites the fields of exactly the rows carrying that identifier
/// and touches no other row.  A failed statement changes nothing.
#[verifier::external_body]
pub(crate) fn dl_update(db: &mut DownloadDb, d: &Download) -> (r: Result<(), rusqlite::Error>)
    ensures
        r is Ok ==> dl_rows(*final(db)) == dl_update_rows(dl_rows(*old(db)), d.id, d@),
        r is Err ==> dl_rows(*final(db)) == dl_rows(*old(db)),
{
    db.conn.execute(
        "UPDATE download SET url = ?1, file_name = ?2, file_path = ?3, file_size = ?4, downloaded_size = ?5, status = ?6, start_time = ?7, end_time = ?8, mime_type = ?9 WHERE id = ?10",
        (&d.url, &d.file_name, &d.file_path, d.file_size, d.downloaded_size, &d.status,
            d.start_time, d.end_time, &d.mime_type, d.id),
    )?;
    Ok(())
}

/// Relies on `rusqlite::Connection::execute`: a single
/// `UPDATE download SET status = ? WHERE id = ?` replaces the status of
/// exactly the rows carrying that identifier.  A failed statement changes
/// nothing.
#[verifier::external_body]
pub(crate) fn dl_update_status(db: &mut DownloadDb, id: i64, status: &String) -> (r: Result<
    (),
    rusqlite::Error,
>)
    ensures
        r is Ok ==> dl_rows(*final(db)) == dl_set_status(dl_rows(*old(db)), id, status@),
        r is Err ==> dl_rows(*final(db)) == dl_rows(*old(db)),
{
    db.conn.execute("UPDATE download SET status = ?1 WHERE id = ?2", (status, id))?;
    Ok(())
}

/// Relies on `rusqlite::Connection::execute`: a single
/// `UPDATE download SET downloaded_size = ? WHERE id = ?` replaces the
/// downloaded size of exactly the rows carrying that identifier.  A failed
/// statement changes nothing.
#[verifier::external_body]
pub(crate) fn dl_update_size(db: &mut DownloadDb, id: i64, size: i64) -> (r: Result<
    (),
    rusqlite::Error,
>)
    ensures
        r is Ok ==> dl_rows(*final(db)) == dl_set_size(dl_rows(*old(db)), id, size),
        r is Err ==> dl_rows(*final(db)) == dl_rows(*old(db)),
{
    db.conn.execute("UPDATE download SET downloaded_size = ?1 WHERE id = ?2", (size, id))?;
    Ok(())
}

/// Relies on `rusqlite::Connection::execute`: a single `DELETE ... WHERE
/// id = ?` removes exactly the rows carrying that identifier.  A failed
/// statement changes nothing.
#[verifier::external_body]
pub(crate) fn dl_delete(db: &mut DownloadDb, id: i64) -> (r: Result<(), rusqlite::Error>)
    ensures
        r is Ok ==> dl_rows(*final(db)) == dl_delete_rows(dl_rows(*old(db)), id),
        r is Err ==> dl_rows(*final(db)) == dl_rows(*old(db)),
{
    db.conn.execute("DELETE FROM download WHERE id = ?1", (id,))?;
    Ok(())
}

/// Relies on `rusqlite::Connection::execute`: an unfiltered `DELETE`
/// removes every row.  A failed statement changes nothing.
#[verifier::external_body]
pub(crate) fn dl_clear(db: &mut DownloadDb) -> (r: Result<(), rusqlite::Error>)
    ensures
        r is Ok ==> dl_rows(*final(db)) == Seq::<DownloadV>::empty(),
        r is Err ==> dl_rows(*final(db)) == dl_rows(*old(db)),
{
    db.conn.execute("DELETE FROM download", [])?;
    Ok(())
}

/// Relies on `rusqlite::Connection::prepare` and `Statement::query_map`: a
/// `SELECT` of the full column set with `ORDER BY id` returns every row of
/// the table, in identifier order.
#[verifier::external_body]
pub(crate) fn dl_select_all(db: &DownloadDb) -> (r: Result<Vec<Download>, rusqlite::Error>)
    ensures
        r matches Ok(v) ==> dl_views(v@) == dl_rows(*db),
{
    let mut stmt = db.conn.prepare(
        "SELECT id, url, file_name, file_path, file_size, downloaded_size, status, start_time, end_time, mime_type FROM download ORDER BY id",
    )?;
    let rows = stmt.query_map([], |r| {
        Ok(Download {
            id: r.get(0)?, url: r.get(1)?, file_name: r.get(2)?, file_path: r.get(3)?,
            file_size: r.get(4)?, downloaded_size: r.get(5)?, status: r.get(6)?,
            start_time: r.get(7)?, end_time: r.get(8)?, mime_type: r.get(9)?,
        })
    })?;
    rows.collect()
}

} // verus!
