//! An embedded local data-storage layer for a browser-like application.
//!
//! Three record kinds — bookmarks, browsing history, and downloads — are each
//! persisted in their own SQLite database file under a configured base
//! directory.  The shared core is a once-initialized path registry, lazy
//! per-entity connections, idempotent schema creation, and a declarative
//! query protocol with optional filters, substring search, allow-listed
//! ordering, and offset/limit pagination.  The query protocol is evaluated by
//! verified code over the rows of a table; SQLite itself is relied on only as
//! the persistent container of rows, through a small set of trusted wrappers.

pub mod bookmark;
mod db;
pub mod download;
pub mod error;
pub mod history;
pub mod laws;
pub mod registry;
pub mod req;
pub mod rows;
pub mod store;
pub mod strutil;
pub mod table;

pub use bookmark::{Bookmark, BookmarkData, BookmarkDataReq, BookmarkQueryReq};
pub use download::Download;
pub use error::StoreError;
pub use history::History;
pub use req::{DeleteReq, GetReq};
pub use store::Store;
