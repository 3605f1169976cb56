//! The scholar tool's sources: search sources behind one trait, and the PDF
//! resolvers.

pub mod arxiv;
pub mod crossref;
pub mod fatcat;
pub mod openalex;
pub mod publisher;
pub mod s2;
pub mod unpaywall;

use vstd::prelude::*;
use crate::http::{Fetched, HttpGet};
use crate::json::Json;
use crate::paper::Paper;

verus! {

/// A paper search source. `fetch` performs the HTTP request a search needs.
pub trait Source {
    fn name(&self) -> &'static str;

    fn search<F: FnOnce(HttpGet) -> Fetched<Json>>(&self, query: &str, limit: usize, fetch: F) -> Result<
        Vec<Paper>,
        String,
    >
        requires
            forall|g: HttpGet| fetch.requires((g,)),
    ;
}

} // verus!
