//! CORE (core.ac.uk) full-text PDF resolver — key-gated.
//!
//! CORE aggregates open-access papers from repositories and hosts its own copy
//! of each PDF, exposed as a `downloadUrl`. The CORE API v3 needs a free API
//! key, sent as `Authorization: Bearer {key}`. Without a key the resolver is
//! skipped: it answers "no PDF" before any request.

use vstd::prelude::*;
use crate::http::{message, Fetched, HttpGet};
use crate::json::{as_array, as_str, at, Json, JsonV};
use crate::paper::opt_view;
use crate::text::{is_blank, push_str, to_string, trim};
use crate::urlenc::{encode_query, percent_encode};

verus! {

/// CORE as a PDF resolver.
pub struct Core {
    pub api_key: Option<String>,
}

/// A key counts only when it holds something besides whitespace.
pub open spec fn usable_key(k: Option<String>) -> Option<Seq<char>> {
    match k {
        Some(s) => if trim(s@).len() > 0 {
            Some(s@)
        } else {
            None
        },
        None => None,
    }
}

impl Core {
    /// A resolver with the given key; a blank key is treated as absent.
    pub fn new(api_key: Option<String>) -> (r: Self)
        ensures
            opt_view(r.api_key) == usable_key(api_key),
    {
        let api_key = match api_key {
            Some(k) => if is_blank(k.as_str()) {
                None
            } else {
                Some(k)
            },
            None => None,
        };
        Core { api_key }
    }

    /// The search request for `doi`, or `None` when there is no key.
    pub fn find_pdf_request(&self, doi: &str) -> (r: Option<HttpGet>)
        ensures
            self.api_key is None <==> r is None,
            r matches Some(g) ==> request_ok(self.api_key.unwrap()@, doi@, g),
    {
        let key = match &self.api_key {
            Some(k) => k,
            None => return None,
        };
        let mut query = to_string("doi:\"");
        push_str(&mut query, doi);
        push_str(&mut query, "\"");
        let mut url = to_string("https://api.core.ac.uk/v3/search/works?q=");
        let encoded = encode_query(query.as_str());
        push_str(&mut url, encoded.as_str());
        push_str(&mut url, "&limit=5");
        let mut headers: Vec<(String, String)> = Vec::new();
        headers.push((to_string("Authorization"), message("Bearer ", key.as_str())));
        headers.push((to_string("Accept"), to_string("application/json")));
        Some(HttpGet { url, headers })
    }

    /// Reads the answer to the search request: a missing record (404), a
    /// rejected key (401/403) and rate limiting (429) all mean "no PDF here";
    /// any other failure is an error.
    pub fn find_pdf_reply(&self, reply: &Fetched<Json>) -> (r: Result<Option<String>, String>)
        ensures
            result_view(r) == reply_result(*reply),
    {
        match reply {
            Fetched::Body(v) => Ok(select_pdf(v)),
            Fetched::Unreadable(e) => Err(message("CORE JSON parse failed: ", e.as_str())),
            Fetched::Status(code, e) => if *code == 404 || *code == 401 || *code == 403 || *code
                == 429 {
                Ok(None)
            } else {
                Err(message("CORE request failed: ", e.as_str()))
            },
            Fetched::Transport(e) => Err(message("CORE request failed: ", e.as_str())),
        }
    }

    /// Looks up an open-access PDF for `doi`; `fetch` performs the request.
    pub fn find_pdf<F: FnOnce(HttpGet) -> Fetched<Json>>(&self, doi: &str, fetch: F) -> (r: Result<
        Option<String>,
        String,
    >)
        requires
            forall|g: HttpGet| fetch.requires((g,)),
        ensures
            self.api_key is None ==> r matches Ok(None),
            self.api_key is Some ==> exists|g: HttpGet, reply: Fetched<Json>|
                request_ok(self.api_key.unwrap()@, doi@, g) && fetch.ensures((g,), reply)
                    && result_view(r) == reply_result(reply),
    {
        match self.find_pdf_request(doi) {
            None => Ok(None),
            Some(g) => {
                let ghost gg = g;
                let reply = fetch(g);
                let r = self.find_pdf_reply(&reply);
                assert(request_ok(self.api_key.unwrap()@, doi@, gg) && fetch.ensures((gg,), reply)
                    && result_view(r) == reply_result(reply));
                r
            },
        }
    }
}

/// The search request CORE answers: an exact DOI-field query, key as bearer
/// token.
pub open spec fn request_ok(key: Seq<char>, doi: Seq<char>, g: HttpGet) -> bool {
    &&& g.url@ == "https://api.core.ac.uk/v3/search/works?q="@ + percent_encode(
        vstd::utf8::encode_utf8("doi:\""@ + doi + "\""@),
        false,
    ) + "&limit=5"@
    &&& g.headers@.len() == 2
    &&& g.headers@[0].0@ == "Authorization"@
    &&& g.headers@[0].1@ == "Bearer "@ + key
    &&& g.headers@[1].0@ == "Accept"@
    &&& g.headers@[1].1@ == "application/json"@
}

pub open spec fn result_view(r: Result<Option<String>, String>) -> Result<Option<Seq<char>>, Seq<char>> {
    match r {
        Ok(o) => Ok(opt_view(o)),
        Err(e) => Err(e@),
    }
}

pub open spec fn reply_result(reply: Fetched<Json>) -> Result<Option<Seq<char>>, Seq<char>> {
    match reply {
        Fetched::Body(v) => Ok(pdf_in(v@)),
        Fetched::Unreadable(e) => Err("CORE JSON parse failed: "@ + e@),
        Fetched::Status(code, e) => if code == 404 || code == 401 || code == 403 || code == 429 {
            Ok(None)
        } else {
            Err("CORE request failed: "@ + e@)
        },
        Fetched::Transport(e) => Err("CORE request failed: "@ + e@),
    }
}

/// The first non-empty string `downloadUrl` among the works.
pub open spec fn first_download_url(works: Seq<JsonV>) -> Option<Seq<char>>
    decreases works.len(),
{
    if works.len() == 0 {
        None
    } else {
        match as_str(at(works[0], "downloadUrl"@)) {
            Some(u) => if u.len() > 0 {
                Some(u)
            } else {
                first_download_url(works.drop_first())
            },
            None => first_download_url(works.drop_first()),
        }
    }
}

/// The PDF a CORE search response offers: the first non-empty `downloadUrl`
/// of its `results`.
pub open spec fn pdf_in(resp: JsonV) -> Option<Seq<char>> {
    match as_array(at(resp, "results"@)) {
        Some(works) => first_download_url(works),
        None => None,
    }
}

/// Extracts a direct PDF `downloadUrl` from a CORE search response.
pub fn select_pdf(resp: &Json) -> (r: Option<String>)
    ensures
        opt_view(r) == pdf_in(resp@),
{
    let results = resp.at("results");
    let works = match results.as_array() {
        Some(w) => w,
        None => return None,
    };
    let ghost wv = works@.map_values(|x: Json| x@);
    let mut i: usize = 0;
    assert(wv.skip(0) =~= wv);
    while i < works.len()
        invariant
            i <= works@.len(),
            wv == works@.map_values(|x: Json| x@),
            pdf_in(resp@) == first_download_url(wv.skip(i as int)),
        decreases works.len() - i,
    {
        proof {
            assert(wv.skip(i as int)[0] == works@[i as int]@);
            assert(wv.skip(i as int).drop_first() =~= wv.skip(i + 1));
        }
        let u = works[i].at("downloadUrl");
        match u.as_str() {
            Some(s) => {
                if !s.is_empty() {
                    return Some(to_string(s));
                }
            },
            None => {},
        }
        i += 1;
    }
    None
}

/// Percent-encode a string for use in a URL query parameter value.
pub fn urlenc(s: &str) -> (r: String)
    ensures
        r@ == percent_encode(vstd::utf8::encode_utf8(s@), false),
{
    encode_query(s)
}

} // verus!
