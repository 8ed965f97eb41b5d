use vstd::prelude::*;

verus! {

/// A point-lookup request: fetch the record with this identifier.
#[derive(Debug, Clone)]
pub struct GetReq {
    pub id: i64,
}

/// A deletion request.  The `force` and `cascade` flags are carried for
/// entities with child relationships; this shared layer itself performs no
/// cascading and ignores them.
#[derive(Debug, Clone)]
pub struct DeleteReq {
    pub id: i64,
    pub force: Option<bool>,
    pub cascade: Option<bool>,
}

} // verus!
