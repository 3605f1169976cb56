//! arXiv as a scholar source: not wired up yet, so every request is refused
//! with a fixed message.

use vstd::prelude::*;
use crate::http::{Fetched, HttpGet};
use crate::json::Json;
use crate::paper::Paper;
use crate::scholar::sources::Source;
use crate::text::to_string;

verus! {

pub struct ArXiv;

impl ArXiv {
    pub fn new() -> Self {
        ArXiv
    }

    /// Fetching by identifier is not implemented.
    pub fn fetch_id(&self, id: &str) -> (r: Result<Paper, String>)
        ensures
            r matches Err(e) && e@ == "arxiv fetch_id not yet implemented"@,
    {
        Err(to_string("arxiv fetch_id not yet implemented"))
    }
}

impl Source for ArXiv {
    fn name(&self) -> (r: &'static str)
        ensures
            r@ == "arxiv"@,
    {
        "arxiv"
    }

    /// Searching is not implemented; no request is made.
    fn search<F: FnOnce(HttpGet) -> Fetched<Json>>(&self, query: &str, limit: usize, fetch: F) -> (r:
        Result<Vec<Paper>, String>)
        ensures
            r matches Err(e) && e@ == "arxiv search not yet implemented"@,
    {
        Err(to_string("arxiv search not yet implemented"))
    }
}

} // verus!
