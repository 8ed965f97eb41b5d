use vstd::prelude::*;

verus! {

use crate::table::{tbl_update, tbl_wf};

/// One browsing-history record as handed to a save: an absent identifier
/// creates a row, a present one updates it.  Absent text fields are
/// persisted as empty text.
#[derive(Debug, Clone, PartialEq)]
pub struct History {
    pub id: Option<i64>,
    pub url: Option<String>,
    pub icon: Option<String>,
    pub title: Option<String>,
    pub visit: Option<String>,
}

/// The mathematical value of a history save request.
pub ghost struct HistoryV {
    pub id: Option<i64>,
    pub url: Option<Seq<char>>,
    pub icon: Option<Seq<char>>,
    pub title: Option<Seq<char>>,
    pub visit: Option<Seq<char>>,
}

/// The mathematical value of one persisted history row.
pub ghost struct HistoryRowV {
    pub id: i64,
    pub url: Seq<char>,
    pub icon: Seq<char>,
    pub title: Seq<char>,
    pub visit: Seq<char>,
}

impl View for History {
    type V = HistoryV;

    open spec fn view(&self) -> HistoryV {
        HistoryV {
            id: self.id,
            url: match self.url {
                Some(ref s) => Some(s@),
                None => None,
            },
            icon: match self.icon {
                Some(ref s) => Some(s@),
                None => None,
            },
            title: match self.title {
                Some(ref s) => Some(s@),
                None => None,
            },
            visit: match self.visit {
                Some(ref s) => Some(s@),
                None => None,
            },
        }
    }
}

/// An absent text field reads as empty text.
pub open spec fn or_empty(o: Option<Seq<char>>) -> Seq<char> {
    match o {
        Some(s) => s,
        None => Seq::empty(),
    }
}

/// The row that a save of `h` persists under identifier `id`.
pub open spec fn hs_row(id: i64, h: HistoryV) -> HistoryRowV {
    HistoryRowV {
        id: id,
        url: or_empty(h.url),
        icon: or_empty(h.icon),
        title: or_empty(h.title),
        visit: or_empty(h.visit),
    }
}

/// The identifier projection of a history row.
pub open spec fn hs_id_of() -> spec_fn(HistoryRowV) -> i64 {
    |r: HistoryRowV| r.id
}

/// Well-formedness of the history table.
pub open spec fn hs_wf(rows: Seq<HistoryRowV>) -> bool {
    tbl_wf(rows, hs_id_of())
}

/// Every row carrying identifier `id` replaced by the fields of `h`.
pub open spec fn hs_update_rows(rows: Seq<HistoryRowV>, id: i64, h: HistoryV) -> Seq<
    HistoryRowV,
> {
    tbl_update(rows, hs_id_of(), id, hs_row(id, h))
}

/// The connection to the history database.  The sequence of persisted rows
/// behind it, in identifier order, is named by [`hs_rows`]; everything the
/// rest of the library knows about it is stated by the trusted wrappers
/// below, which hold this module's only SQL.
pub struct HistoryDb {
    conn: rusqlite::Connection,
}

/// The rows of the history table behind `db`, in identifier order.
pub uninterp spec fn hs_rows(db: HistoryDb) -> Seq<HistoryRowV>;

/// Relies on `rusqlite::Connection::open` and `Connection::execute`: opens
/// the database file, creating it if absent, and issues a
/// `CREATE TABLE IF NOT EXISTS` for the history table.  The rows of an
/// existing table — written only by the inserts below, whose
/// engine-assigned `INTEGER PRIMARY KEY AUTOINCREMENT` identifiers are
/// positive, unique and increasing — are kept; a fresh table is empty.
/// Either way the table is well-formed.
#[verifier::external_body]
pub(crate) fn hs_open(path: &str) -> (r: Result<HistoryDb, rusqlite::Error>)
    ensures
        r matches Ok(db) ==> hs_wf(hs_rows(db)),
{
    let conn = rusqlite::Connection::open(path)?;
    conn.execute(
        "CREATE TABLE IF NOT EXISTS history (id INTEGER PRIMARY KEY AUTOINCREMENT, url TEXT, icon TEXT, title TEXT, visit TEXT)",
        [],
    )?;
    Ok(HistoryDb { conn })
}

/// Relies on `rusqlite::Connection::execute` and
/// `Connection::last_insert_rowid`: a single `INSERT` appends one row whose
/// `AUTOINCREMENT` identifier is positive and larger than every identifier
/// the table has held, and `last_insert_rowid` returns it.  A failed
/// statement changes nothing.
#[verifier::external_body]
pub(crate) fn hs_insert(
    db: &mut HistoryDb,
    url: &String,
    icon: &String,
    title: &String,
    visit: &String,
) -> (r: Result<i64, rusqlite::Error>)
    ensures
        r matches Ok(id) ==> id >= 1 && (forall|i: int|
            0 <= i < hs_rows(*old(db)).len() ==> #[trigger] hs_rows(*old(db))[i].id < id)
            && hs_rows(*final(db)) == hs_rows(*old(db)).push(
            HistoryRowV { id: id, url: url@, icon: icon@, title: title@, visit: visit@ },
        ),
        r is Err ==> hs_rows(*final(db)) == hs_rows(*old(db)),
{
    db.conn.execute(
        "INSERT INTO history (url, icon, title, visit) VALUES (?1, ?2, ?3, ?4)",
        (url, icon, title, visit),
    )?;
    Ok(db.conn.last_insert_rowid())
}

/// Relies on `rusqlite::Connection::execute`: a single `UPDATE ... WHERE
/// id = ?` rewrites the fields of exactly the rows carrying that identifier
/// and touches no other row.  A failed statement changes nothing.
#[verifier::external_body]
pub(crate) fn hs_update(
    db: &mut HistoryDb,
    id: i64,
    url: &String,
    icon: &String,
    title: &String,
    visit: &String,
) -> (r: Result<(), rusqlite::Error>)
    ensures
        r is Ok ==> hs_rows(*final(db)) == tbl_update(
            hs_rows(*old(db)),
            hs_id_of(),
            id,
            HistoryRowV { id: id, url: url@, icon: icon@, title: title@, visit: visit@ },
        ),
        r is Err ==> hs_rows(*final(db)) == hs_rows(*old(db)),
{
    db.conn.execute(
        "UPDATE history SET url = ?1, icon = ?2, title = ?3, visit = ?4 WHERE id = ?5",
        (url, icon, title, visit, id),
    )?;
    Ok(())
}

} // verus!
