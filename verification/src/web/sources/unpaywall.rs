//! Unpaywall: resolves a DOI to its best open-access location. It is not a
//! search source.

use vstd::prelude::*;
use crate::http::{get_request, message, Fetched, HttpGet};
use crate::json::{as_str, at, Json, JsonV};
use crate::paper::opt_view;
use crate::text::{push_str, to_string};
use crate::urlenc::{encode_doi_path, encode_query, percent_encode};
use crate::web::sources::core_ac::result_view;

verus! {

/// Unpaywall as a PDF resolver; `email` identifies the caller.
pub struct Unpaywall {
    pub email: Option<String>,
}

/// The contact address sent when none is configured.
pub open spec fn default_email() -> Seq<char> {
    "zotron@users.noreply.github.com"@
}

/// The lookup URL for `doi`.
pub open spec fn lookup_url(doi: Seq<char>, email: Option<Seq<char>>) -> Seq<char> {
    let e = match email {
        Some(x) => x,
        None => default_email(),
    };
    "https://api.unpaywall.org/v2/"@ + percent_encode(vstd::utf8::encode_utf8(doi), true)
        + "?email="@ + percent_encode(vstd::utf8::encode_utf8(e), false)
}

/// The PDF of the best open-access location: its `url_for_pdf`, else its
/// `url`; `None` when there is no such location.
pub open spec fn best_pdf(resp: JsonV) -> Option<Seq<char>> {
    let oa = at(resp, "best_oa_location"@);
    if oa is Null {
        None
    } else {
        match as_str(at(oa, "url_for_pdf"@)) {
            Some(u) => Some(u),
            None => as_str(at(oa, "url"@)),
        }
    }
}

pub open spec fn reply_result(reply: Fetched<Json>) -> Result<Option<Seq<char>>, Seq<char>> {
    match reply {
        Fetched::Body(v) => Ok(best_pdf(v@)),
        Fetched::Unreadable(e) => Err("Unpaywall JSON parse failed: "@ + e@),
        Fetched::Status(code, e) => if code == 404 {
            Ok(None)
        } else {
            Err("Unpaywall request failed: "@ + e@)
        },
        Fetched::Transport(e) => Err("Unpaywall request failed: "@ + e@),
    }
}

/// Law: a readable Unpaywall reply resolves to the best open-access
/// location's `url_for_pdf` when it is a string; its `url` only when it has
/// no such `url_for_pdf`; and to nothing without a best location.
pub proof fn law_unpaywall_prefers_pdf_url(body: Json)
    ensures
        ({
            let oa = at(body@, "best_oa_location"@);
            &&& as_str(at(oa, "url_for_pdf"@)) matches Some(u) ==> reply_result(Fetched::Body(body))
                == Ok::<Option<Seq<char>>, Seq<char>>(Some(u))
            &&& (!(oa is Null) && as_str(at(oa, "url_for_pdf"@)) is None) ==> reply_result(
                Fetched::Body(body),
            ) == Ok::<Option<Seq<char>>, Seq<char>>(as_str(at(oa, "url"@)))
            &&& oa is Null ==> reply_result(Fetched::Body(body)) == Ok::<Option<Seq<char>>, Seq<char>>(None)
        }),
{
}

/// Law: a DOI Unpaywall does not know (404) has no open-access PDF; any
/// other failed request, or an unreadable body, is an error.
pub proof fn law_unpaywall_failures(code: u16, e: String)
    ensures
        code == 404 ==> reply_result(Fetched::Status(code, e)) == Ok::<Option<Seq<char>>, Seq<char>>(None),
        code != 404 ==> reply_result(Fetched::Status(code, e)) is Err,
        reply_result(Fetched::<Json>::Transport(e)) is Err,
        reply_result(Fetched::<Json>::Unreadable(e)) is Err,
{
}

impl Unpaywall {
    pub fn new(email: Option<String>) -> (r: Self)
        ensures
            opt_view(r.email) == opt_view(email),
    {
        Unpaywall { email }
    }

    /// The lookup request for `doi`.
    pub fn find_pdf_request(&self, doi: &str) -> (r: HttpGet)
        ensures
            r.url@ == lookup_url(doi@, opt_view(self.email)),
            r.headers@.len() == 0,
    {
        let email = match &self.email {
            Some(e) => e.as_str(),
            None => "zotron@users.noreply.github.com",
        };
        let mut url = to_string("https://api.unpaywall.org/v2/");
        let d = urlenc_doi(doi);
        push_str(&mut url, d.as_str());
        push_str(&mut url, "?email=");
        let e = urlenc(email);
        push_str(&mut url, e.as_str());
        get_request(url)
    }

    /// Reads the answer: a DOI without an Unpaywall record (404) just means
    /// no open-access PDF.
    pub fn find_pdf_reply(&self, reply: &Fetched<Json>) -> (r: Result<Option<String>, String>)
        ensures
            result_view(r) == reply_result(*reply),
    {
        match reply {
            Fetched::Body(v) => {
                let oa = v.at("best_oa_location");
                if oa.is_null() {
                    return Ok(None);
                }
                let pdf = oa.at("url_for_pdf");
                match pdf.as_str() {
                    Some(u) => Ok(Some(to_string(u))),
                    None => {
                        let u = oa.at("url");
                        match u.as_str() {
                            Some(s) => Ok(Some(to_string(s))),
                            None => Ok(None),
                        }
                    },
                }
            },
            Fetched::Unreadable(e) => Err(message("Unpaywall JSON parse failed: ", e.as_str())),
            Fetched::Status(code, e) => if *code == 404 {
                Ok(None)
            } else {
                Err(message("Unpaywall request failed: ", e.as_str()))
            },
            Fetched::Transport(e) => Err(message("Unpaywall request failed: ", e.as_str())),
        }
    }

    /// Looks up an open-access PDF for `doi`; `fetch` performs the request.
    pub fn find_pdf<F: FnOnce(HttpGet) -> Fetched<Json>>(&self, doi: &str, fetch: F) -> (r: Result<
        Option<String>,
        String,
    >)
        requires
            forall|g: HttpGet| fetch.requires((g,)),
        ensures
            exists|g: HttpGet, reply: Fetched<Json>|
                g.url@ == lookup_url(doi@, opt_view(self.email)) && fetch.ensures((g,), reply)
                    && result_view(r) == reply_result(reply),
    {
        let g = self.find_pdf_request(doi);
        let ghost gg = g;
        let reply = fetch(g);
        let r = self.find_pdf_reply(&reply);
        assert(gg.url@ == lookup_url(doi@, opt_view(self.email)) && fetch.ensures((gg,), reply)
            && result_view(r) == reply_result(reply));
        r
    }
}

/// Percent-encode a DOI for use in a URL path segment, keeping its `/`.
pub fn urlenc_doi(s: &str) -> (r: String)
    ensures
        r@ == percent_encode(vstd::utf8::encode_utf8(s@), true),
{
    encode_doi_path(s)
}

/// Percent-encode a string for use in URL query parameters.
pub fn urlenc(s: &str) -> (r: String)
    ensures
        r@ == percent_encode(vstd::utf8::encode_utf8(s@), false),
{
    encode_query(s)
}

} // verus!
