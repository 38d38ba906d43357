//! `determinism.common.v1`: small value types shared by every service.

use vstd::prelude::*;

verus! {

/// A wall-clock instant in milliseconds since the Unix epoch.
#[derive(Clone, Debug, Default, PartialEq, Eq)]
pub struct Timestamp {
    pub unix_millis: i64,
}

/// A BLAKE3 digest.
#[derive(Clone, Debug, Default, PartialEq, Eq)]
pub struct Blake3 {
    pub hash: Vec<u8>,
}

/// A reference to a stored snapshot.
#[derive(Clone, Debug, Default, PartialEq, Eq)]
pub struct PageRef {
    pub snapshot_ref: Vec<u8>,
}

/// The page-size assumed when a listing request does not choose one.
pub const DEFAULT_PAGE_SIZE: u32 = 50;

/// Paging parameters of a listing request.
#[derive(Clone, Debug, PartialEq, Eq)]
pub struct ListPage {
    pub page_size: u32,
    pub page_token: String,
}

impl Default for ListPage {
    /// The first page, with the default page size.
    fn default() -> (page: Self)
        ensures
            page.page_size == DEFAULT_PAGE_SIZE,
            page.page_token@ == Seq::<char>::empty(),
    {
        ListPage { page_size: DEFAULT_PAGE_SIZE, page_token: String::new() }
    }
}

/// Paging state returned with a listing.
#[derive(Clone, Debug, Default, PartialEq, Eq)]
pub struct ListPageOut {
    pub next_page_token: String,
}

} // verus!
