//! Unpaywall as a scholar PDF resolver: not wired up yet, so a lookup is
//! refused with a fixed message. It is no search source.

use vstd::prelude::*;
use crate::paper::opt_view;
use crate::text::to_string;

verus! {

pub struct Unpaywall {
    pub email: Option<String>,
}

impl Unpaywall {
    /// A resolver with the configured contact address, if any.
    pub fn new(email: Option<String>) -> (r: Self)
        ensures
            opt_view(r.email) == opt_view(email),
    {
        Unpaywall { email }
    }

    /// The lookup is not implemented.
    pub fn find_pdf(&self, doi: &str) -> (r: Result<Option<String>, String>)
        ensures
            r matches Err(e) && e@ == "unpaywall find_pdf not yet implemented"@,
    {
        Err(to_string("unpaywall find_pdf not yet implemented"))
    }
}

} // verus!
