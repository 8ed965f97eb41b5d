use vstd::prelude::*;

verus! {

use crate::bookmark::{
    bk_delete, bk_delete_rows, bk_eval_query, bk_find, bk_find_exec, bk_id_of, bk_insert,
    bk_open, bk_query_spec, bk_row, bk_rows, bk_select_all, bk_update, bk_update_rows, bk_views,
    bk_wf, Bookmark, BookmarkDataReq, BookmarkDb, BookmarkQueryReq, BookmarkV,
};
use crate::req::{DeleteReq, GetReq};
use crate::table::{
    lemma_tbl_find_after_delete, lemma_tbl_find_after_insert, lemma_tbl_find_after_update,
    lemma_tbl_find_id, lemma_tbl_len_bound, lemma_tbl_wf_delete, lemma_tbl_wf_insert,
    lemma_tbl_wf_update,
};
use crate::download::{
    dl_clear, dl_delete, dl_delete_rows, dl_eval_listing, dl_find, dl_find_exec, dl_id_of,
    dl_insert, dl_listing_spec, dl_open, dl_row, dl_rows, dl_select_all, dl_set_size,
    dl_set_status, dl_update, dl_update_rows, dl_update_size, dl_update_status, dl_views, dl_wf,
    DlFilter, DlFilterV, Download, DownloadDb, DownloadV,
};
use crate::error::StoreError;
use crate::history::{
    hs_insert, hs_open, hs_row, hs_rows, hs_id_of, hs_update, hs_update_rows, hs_wf, History,
    HistoryDb, HistoryRowV,
};
use crate::registry::PathRegistry;
use crate::rows::{page_slice, paginate, take_at_most, truncate_to};

/// The top-level storage context: the once-initialized base path and one
/// lazily opened, cached connection per entity.  All operations on one
/// entity go through the exclusive borrow of this value, so they are
/// serialized; operations on different entities use independent
/// connections.  A connection is opened — and its schema ensured — on first
/// use; only a successful open is cached, so a failed one is retried on
/// the next call.
///
/// Every write below runs as one statement, which the engine applies
/// atomically; its wrapper states that guarantee as the all-or-nothing
/// contract `Err ==> rows unchanged`.  That is the transactional-execution
/// promise callers depend on: a failed operation leaves the entity's rows
/// exactly as they were, and the error is surfaced, never swallowed.
pub struct Store {
    registry: PathRegistry,
    bookmark: Option<BookmarkDb>,
    history: Option<HistoryDb>,
    download: Option<DownloadDb>,
}

impl Store {
    /// The stored base path, if initialized.
    pub closed spec fn base_view(self) -> Option<Seq<char>> {
        self.registry.base_view()
    }

    /// The bookmark table's rows, if its connection is open.
    pub closed spec fn bookmark_view(self) -> Option<Seq<BookmarkV>> {
        match self.bookmark {
            Some(db) => Some(bk_rows(db)),
            None => None,
        }
    }

    /// The history table's rows, if its connection is open.
    pub closed spec fn history_view(self) -> Option<Seq<HistoryRowV>> {
        match self.history {
            Some(db) => Some(hs_rows(db)),
            None => None,
        }
    }

    /// The download table's rows, if its connection is open.
    pub closed spec fn download_view(self) -> Option<Seq<DownloadV>> {
        match self.download {
            Some(db) => Some(dl_rows(db)),
            None => None,
        }
    }

    /// Whether the bookmark connection is open.
    pub open spec fn bk_is_open(self) -> bool {
        self.bookmark_view() is Some
    }

    /// The bookmark table's rows; meaningful when the connection is open.
    pub open spec fn bk_state(self) -> Seq<BookmarkV> {
        self.bookmark_view()->0
    }

    /// Whether the history connection is open.
    pub open spec fn hs_is_open(self) -> bool {
        self.history_view() is Some
    }

    /// The history table's rows; meaningful when the connection is open.
    pub open spec fn hs_state(self) -> Seq<HistoryRowV> {
        self.history_view()->0
    }

    /// Whether the download connection is open.
    pub open spec fn dl_is_open(self) -> bool {
        self.download_view() is Some
    }

    /// The download table's rows; meaningful when the connection is open.
    pub open spec fn dl_state(self) -> Seq<DownloadV> {
        self.download_view()->0
    }

    /// Every open table is well-formed: positive, strictly increasing
    /// identifiers.
    pub open spec fn inv(self) -> bool {
        &&& (self.bookmark_view() matches Some(rows) ==> bk_wf(rows))
        &&& (self.history_view() matches Some(rows) ==> hs_wf(rows))
        &&& (self.download_view() matches Some(rows) ==> dl_wf(rows))
    }

    /// A store with no base path set and no connection open.
    pub fn new() -> (s: Store)
        ensures
            s.inv(),
            s.base_view() is None,
            s.bookmark_view() is None,
            s.history_view() is None,
            s.download_view() is None,
    {
        Store {
            registry: PathRegistry::new(),
            bookmark: None,
            history: None,
            download: None,
        }
    }

    /// The stored base path, or absent if `init` was never called.
    pub fn base_path(&self) -> (r: Option<&String>)
        ensures
            match r {
                Some(s) => self.base_view() == Some(s@),
                None => self.base_view() is None,
            },
    {
        self.registry.base_path()
    }

    /// Set the base path and eagerly open the bookmark and history
    /// databases under it.  Exactly the first call sets the path; a later
    /// call fails with [`StoreError::AlreadyInitialized`] and changes
    /// nothing.  A failed open is reported but leaves the path set; the
    /// open is retried on the next operation.
    pub fn init(&mut self, db_path: &str) -> (r: Result<(), StoreError>)
        requires
            old(self).inv(),
        ensures
            final(self).inv(),
            final(self).download_view() == old(self).download_view(),
            old(self).base_view() is Some ==> (r matches Err(e) && e is AlreadyInitialized
                && final(self).base_view() == old(self).base_view()
                && final(self).bookmark_view() == old(self).bookmark_view()
                && final(self).history_view() == old(self).history_view()),
            old(self).base_view() is None ==> final(self).base_view() == Some(db_path@),
            old(self).base_view() is None ==> (r matches Err(e) ==> e is Database),
            r is Ok ==> final(self).bk_is_open() && final(self).hs_is_open(),
            old(self).bk_is_open() ==> final(self).bookmark_view() == old(self).bookmark_view(),
            old(self).hs_is_open() ==> final(self).history_view() == old(self).history_view(),
    {
        match self.registry.initialize(db_path) {
            Err(e) => return Err(e),
            Ok(_) => {},
        }
        match self.init_bookmark_database() {
            Err(e) => return Err(e),
            Ok(_) => {},
        }
        match self.init_history_database() {
            Err(e) => return Err(e),
            Ok(_) => {},
        }
        Ok(())
    }

    /// Open the bookmark database and ensure its schema, if not open yet.
    /// Safe to call any number of times: once open, nothing changes.
    pub fn init_bookmark_database(&mut self) -> (r: Result<(), StoreError>)
        requires
            old(self).inv(),
        ensures
            final(self).inv(),
            final(self).base_view() == old(self).base_view(),
            final(self).history_view() == old(self).history_view(),
            final(self).download_view() == old(self).download_view(),
            old(self).bk_is_open() ==> (r is Ok && final(self).bookmark_view() == old(self).bookmark_view()),
            r is Ok ==> final(self).bk_is_open(),
            r is Err ==> final(self).bookmark_view() == old(self).bookmark_view(),
            r matches Err(e) ==> e is Database,
    {
        if self.bookmark.is_none() {
            let path = self.registry.entity_path("bookmark.db");
            match bk_open(path.as_str()) {
                Ok(db) => {
                    self.bookmark = Some(db);
                    Ok(())
                },
                Err(e) => Err(StoreError::Database(e)),
            }
        } else {
            Ok(())
        }
    }

    /// Open the history database and ensure its schema, if not open yet.
    /// Safe to call any number of times: once open, nothing changes.
    pub fn init_history_database(&mut self) -> (r: Result<(), StoreError>)
        requires
            old(self).inv(),
        ensures
            final(self).inv(),
            final(self).base_view() == old(self).base_view(),
            final(self).bookmark_view() == old(self).bookmark_view(),
            final(self).download_view() == old(self).download_view(),
            old(self).hs_is_open() ==> (r is Ok && final(self).history_view() == old(self).history_view()),
            r is Ok ==> final(self).hs_is_open(),
            r is Err ==> final(self).history_view() == old(self).history_view(),
            r matches Err(e) ==> e is Database,
    {
        if self.history.is_none() {
            let path = self.registry.entity_path("history.db");
            match hs_open(path.as_str()) {
                Ok(db) => {
                    self.history = Some(db);
                    Ok(())
                },
                Err(e) => Err(StoreError::Database(e)),
            }
        } else {
            Ok(())
        }
    }

    /// Open the download database and ensure its schema and indexes, if
    /// not open yet.  Safe to call any number of times: once open, nothing
    /// changes.
    pub fn init_download_database(&mut self) -> (r: Result<(), StoreError>)
        requires
            old(self).inv(),
        ensures
            final(self).inv(),
            final(self).base_view() == old(self).base_view(),
            final(self).bookmark_view() == old(self).bookmark_view(),
            final(self).history_view() == old(self).history_view(),
            old(self).dl_is_open() ==> (r is Ok && final(self).download_view() == old(self).download_view()),
            r is Ok ==> final(self).dl_is_open(),
            r is Err ==> final(self).download_view() == old(self).download_view(),
            r matches Err(e) ==> e is Database,
    {
        if self.download.is_none() {
            let path = self.registry.entity_path("download.db");
            match dl_open(path.as_str()) {
                Ok(db) => {
                    self.download = Some(db);
                    Ok(())
                },
                Err(e) => Err(StoreError::Database(e)),
            }
        } else {
            Ok(())
        }
    }

    /// Fetch the bookmark with the requested identifier.  A missing row is
    /// the absent result, never an error.
    pub fn get_bookmark(&mut self, req: GetReq) -> (r: Result<Option<Bookmark>, StoreError>)
        requires
            old(self).inv(),
        ensures
            final(self).inv(),
            r matches Err(e) ==> e is Database,
            final(self).base_view() == old(self).base_view(),
            final(self).history_view() == old(self).history_view(),
            final(self).download_view() == old(self).download_view(),
            old(self).bk_is_open() ==> final(self).bookmark_view() == old(self).bookmark_view(),
            r matches Ok(o) ==> final(self).bk_is_open() && (o matches Some(b) ==> bk_find(
                final(self).bk_state(),
                req.id,
            ) == Some(b@)) && (o is None ==> bk_find(final(self).bk_state(), req.id) is None),
    {
        match self.init_bookmark_database() {
            Err(e) => return Err(e),
            Ok(_) => {},
        }
        let db = self.bookmark.as_ref().unwrap();
        match bk_select_all(db) {
            Ok(v) => Ok(bk_find_exec(v, req.id)),
            Err(e) => Err(StoreError::Database(e)),
        }
    }

    /// Create or update a bookmark, in one entry point: an absent
    /// identifier inserts the fields under a fresh, larger identifier and
    /// returns it; a present identifier rewrites the row carrying it — if
    /// any — and returns it unchanged.  Rewriting a missing identifier
    /// touches nothing and is not an error.
    pub fn save_bookmark(&mut self, req: BookmarkDataReq) -> (r: Result<i64, StoreError>)
        requires
            old(self).inv(),
        ensures
            final(self).inv(),
            r matches Err(e) ==> e is Database,
            final(self).base_view() == old(self).base_view(),
            final(self).history_view() == old(self).history_view(),
            final(self).download_view() == old(self).download_view(),
            old(self).bk_is_open() ==> final(self).bk_is_open(),
            (r is Err && old(self).bk_is_open()) ==> final(self).bookmark_view() == old(self).bookmark_view(),
            r matches Ok(id) ==> final(self).bk_is_open() && (match req.id {
                None => id >= 1 && bk_find(final(self).bk_state(), id) == Some(
                    bk_row(id, req.data@),
                ) && (old(self).bk_is_open() ==> (final(self).bk_state() == old(self).bk_state().push(bk_row(id, req.data@)) && (forall|i: int|
                    0 <= i < old(self).bk_state().len() ==> (#[trigger] old(self).bk_state()[i]).id
                        < id))),
                Some(i) => id == i && (bk_find(final(self).bk_state(), i) matches Some(b) ==> b
                    == bk_row(i, req.data@)) && (old(self).bk_is_open() ==> final(self).bk_state()
                    == bk_update_rows(old(self).bk_state(), i, req.data@)),
            }),
    {
        match self.init_bookmark_database() {
            Err(e) => return Err(e),
            Ok(_) => {},
        }
        let mut db = self.bookmark.take().unwrap();
        let ghost mid = bk_rows(db);
        match req.id {
            Some(i) => {
                let res = bk_update(&mut db, i, &req.data);
                self.bookmark = Some(db);
                match res {
                    Ok(_) => {
                        proof {
                            lemma_tbl_wf_update(mid, bk_id_of(), i, bk_row(i, req.data@));
                            lemma_tbl_find_after_update(mid, bk_id_of(), i, bk_row(i, req.data@));
                        }
                        Ok(i)
                    },
                    Err(e) => Err(StoreError::Database(e)),
                }
            },
            None => {
                let res = bk_insert(&mut db, &req.data);
                self.bookmark = Some(db);
                match res {
                    Ok(id) => {
                        proof {
                            assert forall|i: int| 0 <= i < mid.len() implies bk_id_of()(
                                #[trigger] mid[i],
                            ) != id by {
                                assert(mid[i].id < id);
                            }
                            assert forall|i: int| 0 <= i < mid.len() implies bk_id_of()(
                                #[trigger] mid[i],
                            ) < bk_id_of()(bk_row(id, req.data@)) by {
                                assert(mid[i].id < id);
                            }
                            lemma_tbl_wf_insert(mid, bk_id_of(), bk_row(id, req.data@));
                            lemma_tbl_find_after_insert(mid, bk_id_of(), bk_row(id, req.data@), id);
                        }
                        Ok(id)
                    },
                    Err(e) => Err(StoreError::Database(e)),
                }
            },
        }
    }

    /// Delete the bookmark with the requested identifier.  Deleting a
    /// missing identifier touches nothing and is not an error.  The
    /// request's flags are accepted for forward compatibility and ignored:
    /// this layer cascades nothing.
    pub fn delete_bookmark(&mut self, req: DeleteReq) -> (r: Result<(), StoreError>)
        requires
            old(self).inv(),
        ensures
            final(self).inv(),
            r matches Err(e) ==> e is Database,
            final(self).base_view() == old(self).base_view(),
            final(self).history_view() == old(self).history_view(),
            final(self).download_view() == old(self).download_view(),
            old(self).bk_is_open() ==> final(self).bk_is_open(),
            (r is Err && old(self).bk_is_open()) ==> final(self).bookmark_view() == old(self).bookmark_view(),
            r is Ok ==> final(self).bk_is_open() && bk_find(final(self).bk_state(), req.id)
                is None && (old(self).bk_is_open() ==> final(self).bk_state() == bk_delete_rows(
                old(self).bk_state(),
                req.id,
            )),
    {
        match self.init_bookmark_database() {
            Err(e) => return Err(e),
            Ok(_) => {},
        }
        let mut db = self.bookmark.take().unwrap();
        let ghost mid = bk_rows(db);
        let res = bk_delete(&mut db, req.id);
        self.bookmark = Some(db);
        match res {
            Ok(_) => {
                proof {
                    lemma_tbl_wf_delete(mid, bk_id_of(), req.id);
                    lemma_tbl_find_after_delete(mid, bk_id_of(), req.id);
                }
                Ok(())
            },
            Err(e) => Err(StoreError::Database(e)),
        }
    }

    /// Evaluate a bookmark query: the persisted rows that pass every
    /// filter of the request, in the resolved order, cut to the requested
    /// page.
    pub fn query_bookmark(&mut self, req: BookmarkQueryReq) -> (r: Result<
        Vec<Bookmark>,
        StoreError,
    >)
        requires
            old(self).inv(),
        ensures
            final(self).inv(),
            r matches Err(e) ==> e is Database,
            final(self).base_view() == old(self).base_view(),
            final(self).history_view() == old(self).history_view(),
            final(self).download_view() == old(self).download_view(),
            old(self).bk_is_open() ==> final(self).bookmark_view() == old(self).bookmark_view(),
            r matches Ok(v) ==> final(self).bk_is_open() && bk_views(v@) == bk_query_spec(
                final(self).bk_state(),
                req@,
            ),
    {
        match self.init_bookmark_database() {
            Err(e) => return Err(e),
            Ok(_) => {},
        }
        let db = self.bookmark.as_ref().unwrap();
        match bk_select_all(db) {
            Ok(v) => Ok(bk_eval_query(v, &req)),
            Err(e) => Err(StoreError::Database(e)),
        }
    }

    /// Create or update a history record, in one entry point: an absent
    /// identifier inserts the fields under a fresh, larger identifier and
    /// returns it; a present identifier rewrites the row carrying it — if
    /// any — and returns it unchanged.  Absent text fields are persisted
    /// as empty text.
    pub fn save_history(&mut self, history: History) -> (r: Result<i64, StoreError>)
        requires
            old(self).inv(),
        ensures
            final(self).inv(),
            r matches Err(e) ==> e is Database,
            final(self).base_view() == old(self).base_view(),
            final(self).bookmark_view() == old(self).bookmark_view(),
            final(self).download_view() == old(self).download_view(),
            old(self).hs_is_open() ==> final(self).hs_is_open(),
            (r is Err && old(self).hs_is_open()) ==> final(self).history_view() == old(self).history_view(),
            r matches Ok(id) ==> final(self).hs_is_open() && (match history.id {
                None => id >= 1 && final(self).hs_state().len() >= 1 && final(self).hs_state().last() == hs_row(id, history@) && (old(self).hs_is_open() ==> (
                final(self).hs_state() == old(self).hs_state().push(hs_row(id, history@)) && (
                forall|i: int|
                    0 <= i < old(self).hs_state().len() ==> (#[trigger] old(self).hs_state()[i]).id
                        < id))),
                Some(i) => id == i && (old(self).hs_is_open() ==> final(self).hs_state()
                    == hs_update_rows(old(self).hs_state(), i, history@)),
            }),
    {
        match self.init_history_database() {
            Err(e) => return Err(e),
            Ok(_) => {},
        }
        let url = match &history.url {
            Some(s) => s.clone(),
            None => String::new(),
        };
        let icon = match &history.icon {
            Some(s) => s.clone(),
            None => String::new(),
        };
        let title = match &history.title {
            Some(s) => s.clone(),
            None => String::new(),
        };
        let visit = match &history.visit {
            Some(s) => s.clone(),
            None => String::new(),
        };
        let mut db = self.history.take().unwrap();
        let ghost mid = hs_rows(db);
        match history.id {
            Some(i) => {
                let res = hs_update(&mut db, i, &url, &icon, &title, &visit);
                self.history = Some(db);
                match res {
                    Ok(_) => {
                        proof {
                            assert(HistoryRowV {
                                id: i,
                                url: url@,
                                icon: icon@,
                                title: title@,
                                visit: visit@,
                            } == hs_row(i, history@));
                            lemma_tbl_wf_update(mid, hs_id_of(), i, hs_row(i, history@));
                        }
                        Ok(i)
                    },
                    Err(e) => Err(StoreError::Database(e)),
                }
            },
            None => {
                let res = hs_insert(&mut db, &url, &icon, &title, &visit);
                self.history = Some(db);
                match res {
                    Ok(id) => {
                        proof {
                            assert(HistoryRowV {
                                id: id,
                                url: url@,
                                icon: icon@,
                                title: title@,
                                visit: visit@,
                            } == hs_row(id, history@));
                            assert forall|i: int| 0 <= i < mid.len() implies hs_id_of()(
                                #[trigger] mid[i],
                            ) < hs_id_of()(hs_row(id, history@)) by {
                                assert(mid[i].id < id);
                            }
                            lemma_tbl_wf_insert(mid, hs_id_of(), hs_row(id, history@));
                        }
                        Ok(id)
                    },
                    Err(e) => Err(StoreError::Database(e)),
                }
            },
        }
    }

    /// Persist a new download record under a fresh, larger identifier and
    /// return it; the identifier carried by the record itself is ignored.
    pub fn add_download(&mut self, download: Download) -> (r: Result<i64, StoreError>)
        requires
            old(self).inv(),
        ensures
            final(self).inv(),
            r matches Err(e) ==> e is Database,
            final(self).base_view() == old(self).base_view(),
            final(self).bookmark_view() == old(self).bookmark_view(),
            final(self).history_view() == old(self).history_view(),
            old(self).dl_is_open() ==> final(self).dl_is_open(),
            (r is Err && old(self).dl_is_open()) ==> final(self).download_view() == old(self).download_view(),
            r matches Ok(id) ==> final(self).dl_is_open() && id >= 1 && dl_find(
                final(self).dl_state(),
                id,
            ) == Some(dl_row(id, download@)) && (old(self).dl_is_open() ==> (final(self).dl_state()
                == old(self).dl_state().push(dl_row(id, download@)) && (forall|i: int|
                0 <= i < old(self).dl_state().len() ==> (#[trigger] old(self).dl_state()[i]).id
                    < id))),
    {
        match self.init_download_database() {
            Err(e) => return Err(e),
            Ok(_) => {},
        }
        let mut db = self.download.take().unwrap();
        let ghost mid = dl_rows(db);
        let res = dl_insert(&mut db, &download);
        self.download = Some(db);
        match res {
            Ok(id) => {
                proof {
                    assert forall|i: int| 0 <= i < mid.len() implies dl_id_of()(
                        #[trigger] mid[i],
                    ) != id by {
                        assert(mid[i].id < id);
                    }
                    assert forall|i: int| 0 <= i < mid.len() implies dl_id_of()(
                        #[trigger] mid[i],
                    ) < dl_id_of()(dl_row(id, download@)) by {
                        assert(mid[i].id < id);
                    }
                    lemma_tbl_wf_insert(mid, dl_id_of(), dl_row(id, download@));
                    lemma_tbl_find_after_insert(mid, dl_id_of(), dl_row(id, download@), id);
                }
                Ok(id)
            },
            Err(e) => Err(StoreError::Database(e)),
        }
    }

    /// Rewrite the download row carrying the record's identifier — if any —
    /// with the record's fields.  Rewriting a missing identifier touches
    /// nothing and is not an error.
    pub fn update_download(&mut self, download: Download) -> (r: Result<(), StoreError>)
        requires
            old(self).inv(),
        ensures
            final(self).inv(),
            r matches Err(e) ==> e is Database,
            final(self).base_view() == old(self).base_view(),
            final(self).bookmark_view() == old(self).bookmark_view(),
            final(self).history_view() == old(self).history_view(),
            old(self).dl_is_open() ==> final(self).dl_is_open(),
            (r is Err && old(self).dl_is_open()) ==> final(self).download_view() == old(self).download_view(),
            r is Ok ==> final(self).dl_is_open() && (dl_find(
                final(self).dl_state(),
                download.id,
            ) matches Some(d) ==> d == dl_row(download.id, download@)) && (old(self).dl_is_open()
                ==> final(self).dl_state() == dl_update_rows(
                old(self).dl_state(),
                download.id,
                download@,
            )),
    {
        match self.init_download_database() {
            Err(e) => return Err(e),
            Ok(_) => {},
        }
        let mut db = self.download.take().unwrap();
        let ghost mid = dl_rows(db);
        let res = dl_update(&mut db, &download);
        self.download = Some(db);
        match res {
            Ok(_) => {
                proof {
                    lemma_tbl_wf_update(mid, dl_id_of(), download.id, dl_row(download.id, download@));
                    lemma_tbl_find_after_update(
                        mid,
                        dl_id_of(),
                        download.id,
                        dl_row(download.id, download@),
                    );
                }
                Ok(())
            },
            Err(e) => Err(StoreError::Database(e)),
        }
    }

    /// Replace the status of the download row carrying `id`, if any.  A
    /// missing identifier means nothing changes, and no error.
    pub fn update_download_status(&mut self, id: i64, status: String) -> (r: Result<
        (),
        StoreError,
    >)
        requires
            old(self).inv(),
        ensures
            final(self).inv(),
            r matches Err(e) ==> e is Database,
            final(self).base_view() == old(self).base_view(),
            final(self).bookmark_view() == old(self).bookmark_view(),
            final(self).history_view() == old(self).history_view(),
            old(self).dl_is_open() ==> final(self).dl_is_open(),
            (r is Err && old(self).dl_is_open()) ==> final(self).download_view() == old(self).download_view(),
            r is Ok ==> final(self).dl_is_open() && (dl_find(final(self).dl_state(), id)
                matches Some(d) ==> d.status == status@) && (old(self).dl_is_open() ==> final(self).dl_state() == dl_set_status(old(self).dl_state(), id, status@)),
    {
        match self.init_download_database() {
            Err(e) => return Err(e),
            Ok(_) => {},
        }
        let mut db = self.download.take().unwrap();
        let ghost mid = dl_rows(db);
        let res = dl_update_status(&mut db, id, &status);
        self.download = Some(db);
        match res {
            Ok(_) => {
                proof {
                    lemma_tbl_find_id(mid, dl_id_of(), id);
                    match dl_find(mid, id) {
                        Some(row) => {
                            let repl = DownloadV { status: status@, ..row };
                            lemma_tbl_wf_update(mid, dl_id_of(), id, repl);
                            lemma_tbl_find_after_update(mid, dl_id_of(), id, repl);
                        },
                        None => {},
                    }
                }
                Ok(())
            },
            Err(e) => Err(StoreError::Database(e)),
        }
    }

    /// Replace the downloaded size of the download row carrying `id`, if
    /// any.  A missing identifier means nothing changes, and no error.
    pub fn update_download_size(&mut self, id: i64, downloaded_size: i64) -> (r: Result<
        (),
        StoreError,
    >)
        requires
            old(self).inv(),
        ensures
            final(self).inv(),
            r matches Err(e) ==> e is Database,
            final(self).base_view() == old(self).base_view(),
            final(self).bookmark_view() == old(self).bookmark_view(),
            final(self).history_view() == old(self).history_view(),
            old(self).dl_is_open() ==> final(self).dl_is_open(),
            (r is Err && old(self).dl_is_open()) ==> final(self).download_view() == old(self).download_view(),
            r is Ok ==> final(self).dl_is_open() && (dl_find(final(self).dl_state(), id)
                matches Some(d) ==> d.downloaded_size == downloaded_size) && (old(self).dl_is_open()
                ==> final(self).dl_state() == dl_set_size(
                old(self).dl_state(),
                id,
                downloaded_size,
            )),
    {
        match self.init_download_database() {
            Err(e) => return Err(e),
            Ok(_) => {},
        }
        let mut db = self.download.take().unwrap();
        let ghost mid = dl_rows(db);
        let res = dl_update_size(&mut db, id, downloaded_size);
        self.download = Some(db);
        match res {
            Ok(_) => {
                proof {
                    lemma_tbl_find_id(mid, dl_id_of(), id);
                    match dl_find(mid, id) {
                        Some(row) => {
                            let repl = DownloadV { downloaded_size: downloaded_size, ..row };
                            lemma_tbl_wf_update(mid, dl_id_of(), id, repl);
                            lemma_tbl_find_after_update(mid, dl_id_of(), id, repl);
                        },
                        None => {},
                    }
                }
                Ok(())
            },
            Err(e) => Err(StoreError::Database(e)),
        }
    }

    /// Delete the download row carrying `id`.  Deleting a missing
    /// identifier touches nothing and is not an error.
    pub fn delete_download_by_id(&mut self, id: i64) -> (r: Result<(), StoreError>)
        requires
            old(self).inv(),
        ensures
            final(self).inv(),
            r matches Err(e) ==> e is Database,
            final(self).base_view() == old(self).base_view(),
            final(self).bookmark_view() == old(self).bookmark_view(),
            final(self).history_view() == old(self).history_view(),
            old(self).dl_is_open() ==> final(self).dl_is_open(),
            (r is Err && old(self).dl_is_open()) ==> final(self).download_view() == old(self).download_view(),
            r is Ok ==> final(self).dl_is_open() && dl_find(final(self).dl_state(), id) is None
                && (old(self).dl_is_open() ==> final(self).dl_state() == dl_delete_rows(
                old(self).dl_state(),
                id,
            )),
    {
        match self.init_download_database() {
            Err(e) => return Err(e),
            Ok(_) => {},
        }
        let mut db = self.download.take().unwrap();
        let ghost mid = dl_rows(db);
        let res = dl_delete(&mut db, id);
        self.download = Some(db);
        match res {
            Ok(_) => {
                proof {
                    lemma_tbl_wf_delete(mid, dl_id_of(), id);
                    lemma_tbl_find_after_delete(mid, dl_id_of(), id);
                }
                Ok(())
            },
            Err(e) => Err(StoreError::Database(e)),
        }
    }

    /// Remove every download row.
    pub fn clear_all_downloads(&mut self) -> (r: Result<(), StoreError>)
        requires
            old(self).inv(),
        ensures
            final(self).inv(),
            r matches Err(e) ==> e is Database,
            final(self).base_view() == old(self).base_view(),
            final(self).bookmark_view() == old(self).bookmark_view(),
            final(self).history_view() == old(self).history_view(),
            old(self).dl_is_open() ==> final(self).dl_is_open(),
            (r is Err && old(self).dl_is_open()) ==> final(self).download_view() == old(self).download_view(),
            r is Ok ==> final(self).dl_is_open() && final(self).dl_state()
                == Seq::<DownloadV>::empty(),
    {
        match self.init_download_database() {
            Err(e) => return Err(e),
            Ok(_) => {},
        }
        let mut db = self.download.take().unwrap();
        let res = dl_clear(&mut db);
        self.download = Some(db);
        match res {
            Ok(_) => Ok(()),
            Err(e) => Err(StoreError::Database(e)),
        }
    }

    /// Fetch the download with the requested identifier.  A missing row is
    /// the absent result, never an error.
    pub fn get_download_by_id(&mut self, id: i64) -> (r: Result<Option<Download>, StoreError>)
        requires
            old(self).inv(),
        ensures
            final(self).inv(),
            r matches Err(e) ==> e is Database,
            final(self).base_view() == old(self).base_view(),
            final(self).bookmark_view() == old(self).bookmark_view(),
            final(self).history_view() == old(self).history_view(),
            old(self).dl_is_open() ==> final(self).download_view() == old(self).download_view(),
            r matches Ok(o) ==> final(self).dl_is_open() && (o matches Some(d) ==> dl_find(
                final(self).dl_state(),
                id,
            ) == Some(d@)) && (o is None ==> dl_find(final(self).dl_state(), id) is None),
    {
        match self.init_download_database() {
            Err(e) => return Err(e),
            Ok(_) => {},
        }
        let db = self.download.as_ref().unwrap();
        match dl_select_all(db) {
            Ok(v) => Ok(dl_find_exec(v, id)),
            Err(e) => Err(StoreError::Database(e)),
        }
    }

    /// One page of the download listing: every row, by start time, newest
    /// first, cut to the requested 1-based page.  A page size below one
    /// disables pagination and returns the whole listing.
    pub fn get_downloads_paginated(&mut self, page: i32, page_size: i32) -> (r: Result<
        Vec<Download>,
        StoreError,
    >)
        requires
            old(self).inv(),
        ensures
            final(self).inv(),
            r matches Err(e) ==> e is Database,
            final(self).base_view() == old(self).base_view(),
            final(self).bookmark_view() == old(self).bookmark_view(),
            final(self).history_view() == old(self).history_view(),
            old(self).dl_is_open() ==> final(self).download_view() == old(self).download_view(),
            r matches Ok(v) ==> final(self).dl_is_open() && dl_views(v@) == {
                let listing = dl_listing_spec(final(self).dl_state(), DlFilterV::All);
                if page_size >= 1 {
                    page_slice(listing, page as int, page_size as int)
                } else {
                    listing
                }
            },
    {
        match self.init_download_database() {
            Err(e) => return Err(e),
            Ok(_) => {},
        }
        let db = self.download.as_ref().unwrap();
        match dl_select_all(db) {
            Ok(v) => {
                let listing = dl_eval_listing(v, &DlFilter::All);
                if page_size >= 1 {
                    let paged = paginate(listing, page, page_size);
                    proof {
                        assert(dl_views(paged@) =~= page_slice(
                            dl_views(listing@),
                            page as int,
                            page_size as int,
                        ));
                    }
                    Ok(paged)
                } else {
                    Ok(listing)
                }
            },
            Err(e) => Err(StoreError::Database(e)),
        }
    }

    /// The downloads whose status equals the given one exactly, by start
    /// time, newest first.
    pub fn get_downloads_by_status(&mut self, status: String) -> (r: Result<
        Vec<Download>,
        StoreError,
    >)
        requires
            old(self).inv(),
        ensures
            final(self).inv(),
            r matches Err(e) ==> e is Database,
            final(self).base_view() == old(self).base_view(),
            final(self).bookmark_view() == old(self).bookmark_view(),
            final(self).history_view() == old(self).history_view(),
            old(self).dl_is_open() ==> final(self).download_view() == old(self).download_view(),
            r matches Ok(v) ==> final(self).dl_is_open() && dl_views(v@) == dl_listing_spec(
                final(self).dl_state(),
                DlFilterV::WithStatus(status@),
            ),
    {
        match self.init_download_database() {
            Err(e) => return Err(e),
            Ok(_) => {},
        }
        let db = self.download.as_ref().unwrap();
        match dl_select_all(db) {
            Ok(v) => Ok(dl_eval_listing(v, &DlFilter::WithStatus(status))),
            Err(e) => Err(StoreError::Database(e)),
        }
    }

    /// The downloads whose file name or url holds the given text, by start
    /// time, newest first, cut to `limit` rows if one at least zero is
    /// given; a negative limit means no limit, and empty text matches
    /// every row.
    pub fn search_downloads(&mut self, keyword: String, limit: Option<i32>) -> (r: Result<
        Vec<Download>,
        StoreError,
    >)
        requires
            old(self).inv(),
        ensures
            final(self).inv(),
            r matches Err(e) ==> e is Database,
            final(self).base_view() == old(self).base_view(),
            final(self).bookmark_view() == old(self).bookmark_view(),
            final(self).history_view() == old(self).history_view(),
            old(self).dl_is_open() ==> final(self).download_view() == old(self).download_view(),
            r matches Ok(v) ==> final(self).dl_is_open() && dl_views(v@) == {
                let listing = dl_listing_spec(
                    final(self).dl_state(),
                    DlFilterV::Matching(keyword@),
                );
                match limit {
                    Some(k) => if k >= 0 {
                        take_at_most(listing, k as int)
                    } else {
                        listing
                    },
                    None => listing,
                }
            },
    {
        match self.init_download_database() {
            Err(e) => return Err(e),
            Ok(_) => {},
        }
        let db = self.download.as_ref().unwrap();
        match dl_select_all(db) {
            Ok(v) => {
                let listing = dl_eval_listing(v, &DlFilter::Matching(keyword));
                match limit {
                    Some(k) => {
                        if k >= 0 {
                            let cut = truncate_to(listing, k);
                            proof {
                                assert(dl_views(cut@) =~= take_at_most(
                                    dl_views(listing@),
                                    k as int,
                                ));
                            }
                            Ok(cut)
                        } else {
                            Ok(listing)
                        }
                    },
                    None => Ok(listing),
                }
            },
            Err(e) => Err(StoreError::Database(e)),
        }
    }

    /// The number of persisted download rows.
    pub fn get_download_count(&mut self) -> (r: Result<i64, StoreError>)
        requires
            old(self).inv(),
        ensures
            final(self).inv(),
            r matches Err(e) ==> e is Database,
            final(self).base_view() == old(self).base_view(),
            final(self).bookmark_view() == old(self).bookmark_view(),
            final(self).history_view() == old(self).history_view(),
            old(self).dl_is_open() ==> final(self).download_view() == old(self).download_view(),
            r matches Ok(n) ==> final(self).dl_is_open() && n == final(self).dl_state().len(),
    {
        match self.init_download_database() {
            Err(e) => return Err(e),
            Ok(_) => {},
        }
        let db = self.download.as_ref().unwrap();
        match dl_select_all(db) {
            Ok(v) => {
                proof {
                    lemma_tbl_len_bound(dl_views(v@), dl_id_of());
                    assert(v@.len() == dl_views(v@).len());
                }
                Ok(v.len() as i64)
            },
            Err(e) => Err(StoreError::Database(e)),
        }
    }

    /// The downloads still in progress — status `downloading` or
    /// `pending` — by start time, newest first.
    pub fn get_active_downloads(&mut self) -> (r: Result<Vec<Download>, StoreError>)
        requires
            old(self).inv(),
        ensures
            final(self).inv(),
            r matches Err(e) ==> e is Database,
            final(self).base_view() == old(self).base_view(),
            final(self).bookmark_view() == old(self).bookmark_view(),
            final(self).history_view() == old(self).history_view(),
            old(self).dl_is_open() ==> final(self).download_view() == old(self).download_view(),
            r matches Ok(v) ==> final(self).dl_is_open() && dl_views(v@) == dl_listing_spec(
                final(self).dl_state(),
                DlFilterV::Active,
            ),
    {
        match self.init_download_database() {
            Err(e) => return Err(e),
            Ok(_) => {},
        }
        let db = self.download.as_ref().unwrap();
        match dl_select_all(db) {
            Ok(v) => Ok(dl_eval_listing(v, &DlFilter::Active)),
            Err(e) => Err(StoreError::Database(e)),
        }
    }
}

} // verus!
