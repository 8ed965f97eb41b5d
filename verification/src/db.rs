use vstd::prelude::*;

verus! {

/// The handle to one SQLite database, owned by the `rusqlite` crate.
/// Verified code carries values of this type through; everything known about
/// the tables behind a handle is stated by the trusted wrappers of each
/// entity module.
#[verifier::external_type_specification]
#[verifier::external_body]
pub struct ExConnection(rusqlite::Connection);

/// The error type of the `rusqlite` crate, carried through opaquely and
/// wrapped into [`crate::StoreError`] by verified code.
#[verifier::external_type_specification]
#[verifier::external_body]
pub struct ExRusqliteError(rusqlite::Error);

} // verus!
