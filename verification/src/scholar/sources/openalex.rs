//! OpenAlex as a scholar source: not wired up yet, so a search is refused
//! with a fixed message. The contact address comes from the program's
//! configuration.

use vstd::prelude::*;
use crate::http::{Fetched, HttpGet};
use crate::json::Json;
use crate::paper::{opt_view, Paper};
use crate::scholar::sources::Source;
use crate::text::to_string;

verus! {

pub struct OpenAlex {
    pub email: Option<String>,
}

impl OpenAlex {
    /// A source with the configured contact address, if any.
    pub fn new(email: Option<String>) -> (r: Self)
        ensures
            opt_view(r.email) == opt_view(email),
    {
        OpenAlex { email }
    }
}

impl Source for OpenAlex {
    fn name(&self) -> (r: &'static str)
        ensures
            r@ == "openalex"@,
    {
        "openalex"
    }

    /// Searching is not implemented; no request is made.
    fn search<F: FnOnce(HttpGet) -> Fetched<Json>>(&self, query: &str, limit: usize, fetch: F) -> (r:
        Result<Vec<Paper>, String>)
        ensures
            r matches Err(e) && e@ == "openalex search not yet implemented"@,
    {
        Err(to_string("openalex search not yet implemented"))
    }
}

} // verus!
