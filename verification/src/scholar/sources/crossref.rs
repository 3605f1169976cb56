//! CrossRef as a scholar source: not wired up yet, so every request is refused
//! with a fixed message.

use vstd::prelude::*;
use crate::http::{Fetched, HttpGet};
use crate::json::Json;
use crate::paper::Paper;
use crate::scholar::sources::Source;
use crate::text::to_string;

verus! {

pub struct CrossRef;

impl CrossRef {
    pub fn new() -> Self {
        CrossRef
    }

    /// Fetching by DOI is not implemented.
    pub fn fetch_doi(&self, doi: &str) -> (r: Result<Paper, String>)
        ensures
            r matches Err(e) && e@ == "crossref fetch_doi not yet implemented"@,
    {
        Err(to_string("crossref fetch_doi not yet implemented"))
    }
}

impl Source for CrossRef {
    fn name(&self) -> (r: &'static str)
        ensures
            r@ == "crossref"@,
    {
        "crossref"
    }

    /// Searching is not implemented; no request is made.
    fn search<F: FnOnce(HttpGet) -> Fetched<Json>>(&self, query: &str, limit: usize, fetch: F) -> (r:
        Result<Vec<Paper>, String>)
        ensures
            r matches Err(e) && e@ == "crossref search not yet implemented"@,
    {
        Err(to_string("crossref search not yet implemented"))
    }
}

} // verus!
