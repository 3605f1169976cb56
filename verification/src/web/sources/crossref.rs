//! CrossRef: DOI metadata lookup through the `works` API.

use vstd::prelude::*;
use crate::http::{get_request, message, Fetched, HttpGet};
use crate::json::{as_array, as_str, as_u64, at, Json, JsonV};
use crate::paper::{author_names, opt_view, Author, Paper};
use crate::text::{decimal, join, push_str, to_string, u64_to_string};
use crate::urlenc::{encode_doi_path, encode_query, percent_encode};

verus! {

/// CrossRef as a metadata source; `email` joins CrossRef's polite pool.
pub struct CrossRef {
    pub email: Option<String>,
}

/// A string member, or `None` when absent or not a string.
pub open spec fn str_at(v: JsonV, key: Seq<char>) -> Option<Seq<char>> {
    as_str(at(v, key))
}

/// The first element of an array member, when it is a string.
pub open spec fn first_str_at(v: JsonV, key: Seq<char>) -> Option<Seq<char>> {
    match as_array(at(v, key)) {
        Some(a) => if a.len() > 0 {
            as_str(a[0])
        } else {
            None
        },
        None => None,
    }
}

/// The string or the empty string.
pub open spec fn or_empty(o: Option<Seq<char>>) -> Seq<char> {
    match o {
        Some(s) => s,
        None => Seq::empty(),
    }
}

/// The display name of a CrossRef author: "given family", or whichever part
/// is present; `None` when both are empty or missing.
pub open spec fn author_name(a: JsonV) -> Option<Seq<char>> {
    let given = or_empty(str_at(a, "given"@));
    let family = or_empty(str_at(a, "family"@));
    if given.len() == 0 && family.len() == 0 {
        None
    } else if given.len() == 0 {
        Some(family)
    } else if family.len() == 0 {
        Some(given)
    } else {
        Some(given + seq![' '] + family)
    }
}

pub open spec fn author_names_in(authors: Seq<JsonV>) -> Seq<Seq<char>>
    decreases authors.len(),
{
    if authors.len() == 0 {
        seq![]
    } else {
        let rest = author_names_in(authors.drop_last());
        match author_name(authors.last()) {
            Some(n) => rest.push(n),
            None => rest,
        }
    }
}

/// The non-negative integers among `parts`, in decimal.
pub open spec fn date_numbers(parts: Seq<JsonV>) -> Seq<Seq<char>>
    decreases parts.len(),
{
    if parts.len() == 0 {
        seq![]
    } else {
        let rest = date_numbers(parts.drop_last());
        match as_u64(parts.last()) {
            Some(n) => rest.push(decimal(n as nat)),
            None => rest,
        }
    }
}

/// A CrossRef date field `{"date-parts": [[2023, 4, 15]]}` as "2023-4-15".
pub open spec fn date_of(msg: JsonV, field: Seq<char>) -> Option<Seq<char>> {
    match as_array(at(at(msg, field), "date-parts"@)) {
        Some(outer) => if outer.len() > 0 {
            match as_array(outer[0]) {
                Some(parts) => {
                    let nums = date_numbers(parts);
                    if nums.len() == 0 {
                        None
                    } else {
                        Some(join(nums, seq!['-']))
                    }
                },
                None => None,
            }
        } else {
            None
        },
        None => None,
    }
}

pub open spec fn or_else(a: Option<Seq<char>>, b: Option<Seq<char>>) -> Option<Seq<char>> {
    match a {
        Some(x) => Some(x),
        None => b,
    }
}

/// The paper a CrossRef `message` object describes.
pub open spec fn message_paper_ok(msg: JsonV, doi: Seq<char>, p: Paper) -> bool {
    &&& p.title@ == match first_str_at(msg, "title"@) {
        Some(t) => t,
        None => "(untitled)"@,
    }
    &&& author_names(p.authors@) == match as_array(at(msg, "author"@)) {
        Some(a) => author_names_in(a),
        None => seq![],
    }
    &&& opt_view(p.doi) == Some(doi)
    &&& opt_view(p.abstract_text) == str_at(msg, "abstract"@)
    &&& opt_view(p.date) == or_else(
        date_of(msg, "published-print"@),
        date_of(msg, "published-online"@),
    )
    &&& opt_view(p.publication) == first_str_at(msg, "container-title"@)
    &&& opt_view(p.volume) == str_at(msg, "volume"@)
    &&& opt_view(p.pages) == str_at(msg, "page"@)
    &&& opt_view(p.url) == str_at(msg, "URL"@)
    &&& p.pdf_url is None
    &&& p.arxiv_id is None
    &&& opt_view(p.source) == Some("crossref"@)
    &&& p.cited_by_count == as_u64(at(msg, "is-referenced-by-count"@))
}

/// The string member `key`, copied.
pub fn string_at(v: &Json, key: &str) -> (r: Option<String>)
    ensures
        opt_view(r) == str_at(v@, key@),
{
    let x = v.at(key);
    match x.as_str() {
        Some(s) => Some(to_string(s)),
        None => None,
    }
}

/// The first element of the array member `key`, when it is a string.
pub fn first_string_at(v: &Json, key: &str) -> (r: Option<String>)
    ensures
        opt_view(r) == first_str_at(v@, key@),
{
    let x = v.at(key);
    match x.as_array() {
        Some(a) => if a.len() > 0 {
            match a[0].as_str() {
                Some(s) => Some(to_string(s)),
                None => None,
            }
        } else {
            None
        },
        None => None,
    }
}

fn author_from(a: &Json) -> (r: Option<String>)
    ensures
        opt_view(r) == author_name(a@),
{
    let given = match string_at(a, "given") {
        Some(g) => g,
        None => String::new(),
    };
    let family = match string_at(a, "family") {
        Some(f) => f,
        None => String::new(),
    };
    let ge = given.as_str().is_empty();
    let fe = family.as_str().is_empty();
    if ge && fe {
        None
    } else if ge {
        Some(family)
    } else if fe {
        Some(given)
    } else {
        let mut name = String::new();
        push_str(&mut name, given.as_str());
        name.push(' ');
        push_str(&mut name, family.as_str());
        Some(name)
    }
}

/// Extracts a date string from a CrossRef date field like "published-print"
/// or "published-online": date parts `[[2023, 4, 15]]` give "2023-4-15".
pub fn extract_date(msg: &Json, field: &str) -> (r: Option<String>)
    ensures
        opt_view(r) == date_of(msg@, field@),
{
    let f = msg.at(field);
    let dp = f.at("date-parts");
    let outer = match dp.as_array() {
        Some(o) => o,
        None => return None,
    };
    if outer.len() == 0 {
        return None;
    }
    let parts = match outer[0].as_array() {
        Some(p) => p,
        None => return None,
    };
    let ghost pv = parts@.map_values(|x: Json| x@);
    let mut strs: Vec<String> = Vec::new();
    let mut i: usize = 0;
    while i < parts.len()
        invariant
            i <= parts@.len(),
            pv == parts@.map_values(|x: Json| x@),
            strs@.map_values(|s: String| s@) == date_numbers(pv.take(i as int)),
        decreases parts.len() - i,
    {
        proof {
            assert(pv.take(i + 1).drop_last() =~= pv.take(i as int));
            assert(pv.take(i + 1).last() == parts@[i as int]@);
        }
        match parts[i].as_u64() {
            Some(n) => {
                let ghost before = strs@.map_values(|s: String| s@);
                strs.push(u64_to_string(n));
                assert(strs@.map_values(|s: String| s@) =~= before.push(decimal(n as nat)));
            },
            None => {},
        }
        i += 1;
    }
    assert(pv.take(parts@.len() as int) =~= pv);
    if strs.len() == 0 {
        None
    } else {
        let dash = to_string("-");
        proof {
            reveal_strlit("-");
        }
        assert(dash@ =~= seq!['-']);
        Some(crate::text::join_strings(&strs, dash.as_str()))
    }
}

/// Builds a paper from a CrossRef `message` object.
pub fn parse_message(msg: &Json, doi: &str) -> (p: Paper)
    ensures
        message_paper_ok(msg@, doi@, p),
{
    let title = match first_string_at(msg, "title") {
        Some(t) => t,
        None => to_string("(untitled)"),
    };
    let mut authors: Vec<Author> = Vec::new();
    let author_list = msg.at("author");
    match author_list.as_array() {
        Some(arr) => {
            let ghost av = arr@.map_values(|x: Json| x@);
            let mut i: usize = 0;
            while i < arr.len()
                invariant
                    i <= arr@.len(),
                    av == arr@.map_values(|x: Json| x@),
                    author_names(authors@) == author_names_in(av.take(i as int)),
                decreases arr.len() - i,
            {
                proof {
                    assert(av.take(i + 1).drop_last() =~= av.take(i as int));
                    assert(av.take(i + 1).last() == arr@[i as int]@);
                }
                match author_from(&arr[i]) {
                    Some(name) => {
                        let ghost before = authors@;
                        authors.push(Author { name });
                        assert(author_names(authors@) =~= author_names(before).push(name@));
                    },
                    None => {},
                }
                i += 1;
            }
            assert(av.take(arr@.len() as int) =~= av);
        },
        None => {
            assert(author_names(authors@) =~= Seq::<Seq<char>>::empty());
        },
    }
    let date = match extract_date(msg, "published-print") {
        Some(d) => Some(d),
        None => extract_date(msg, "published-online"),
    };
    Paper {
        title,
        authors,
        doi: Some(to_string(doi)),
        abstract_text: string_at(msg, "abstract"),
        date,
        publication: first_string_at(msg, "container-title"),
        volume: string_at(msg, "volume"),
        pages: string_at(msg, "page"),
        url: string_at(msg, "URL"),
        pdf_url: None,
        arxiv_id: None,
        source: Some(to_string("crossref")),
        cited_by_count: msg.at("is-referenced-by-count").as_u64(),
    }
}

/// The `works` URL for a DOI, with the polite-pool address when known.
pub open spec fn works_url(doi: Seq<char>, email: Option<Seq<char>>) -> Seq<char> {
    let base = "https://api.crossref.org/works/"@ + percent_encode(
        vstd::utf8::encode_utf8(doi),
        true,
    );
    match email {
        Some(e) => base + "?mailto="@ + percent_encode(vstd::utf8::encode_utf8(e), false),
        None => base,
    }
}

/// What a DOI lookup yields from the (retried) `works` request.
pub open spec fn fetch_doi_result(reply: Fetched<Json>, doi: Seq<char>, p: Result<Paper, String>) -> bool {
    match reply {
        Fetched::Body(v) => if at(v@, "message"@) is Null {
            p matches Err(e) && e@ == "CrossRef response missing 'message'"@
        } else {
            p matches Ok(paper) && message_paper_ok(at(v@, "message"@), doi, paper)
        },
        Fetched::Unreadable(e) => p matches Err(m) && m@ == "CrossRef JSON parse failed: "@ + e@,
        Fetched::Status(code, _) => p matches Err(m) && m@ == "CrossRef request failed: HTTP status "@
            + decimal(code as nat),
        Fetched::Transport(e) => p matches Err(m) && m@ == "CrossRef request failed: transport error: "@
            + e@,
    }
}

impl CrossRef {
    pub fn new(email: Option<String>) -> (r: Self)
        ensures
            opt_view(r.email) == opt_view(email),
    {
        CrossRef { email }
    }

    /// The `works` request for `doi`.
    pub fn fetch_doi_request(&self, doi: &str) -> (r: HttpGet)
        ensures
            r.url@ == works_url(doi@, opt_view(self.email)),
            r.headers@.len() == 0,
    {
        let mut url = to_string("https://api.crossref.org/works/");
        let d = urlenc_doi(doi);
        push_str(&mut url, d.as_str());
        match &self.email {
            Some(email) => {
                push_str(&mut url, "?mailto=");
                let e = urlenc(email.as_str());
                push_str(&mut url, e.as_str());
            },
            None => {},
        }
        get_request(url)
    }

    /// Reads the answer to the `works` request.
    pub fn fetch_doi_reply(&self, doi: &str, reply: &Fetched<Json>) -> (r: Result<Paper, String>)
        ensures
            fetch_doi_result(*reply, doi@, r),
    {
        match reply {
            Fetched::Body(v) => {
                let msg = v.at("message");
                if msg.is_null() {
                    Err(to_string("CrossRef response missing 'message'"))
                } else {
                    Ok(parse_message(&msg, doi))
                }
            },
            Fetched::Unreadable(e) => Err(message("CrossRef JSON parse failed: ", e.as_str())),
            Fetched::Status(code, _) => {
                let c = u64_to_string(*code as u64);
                Err(message("CrossRef request failed: HTTP status ", c.as_str()))
            },
            Fetched::Transport(e) => Err(
                message("CrossRef request failed: transport error: ", e.as_str()),
            ),
        }
    }

    /// Fetches the metadata of `doi`; `fetch` performs the request (with the
    /// transient-error retries of `get_with_retry`).
    pub fn fetch_doi<F: FnOnce(HttpGet) -> Fetched<Json>>(&self, doi: &str, fetch: F) -> (r: Result<
        Paper,
        String,
    >)
        requires
            forall|g: HttpGet| fetch.requires((g,)),
        ensures
            exists|g: HttpGet, reply: Fetched<Json>|
                g.url@ == works_url(doi@, opt_view(self.email)) && fetch.ensures((g,), reply)
                    && fetch_doi_result(reply, doi@, r),
    {
        let g = self.fetch_doi_request(doi);
        let ghost gg = g;
        let reply = fetch(g);
        let r = self.fetch_doi_reply(doi, &reply);
        assert(gg.url@ == works_url(doi@, opt_view(self.email)) && fetch.ensures((gg,), reply)
            && fetch_doi_result(reply, doi@, r));
        r
    }

    pub fn name(&self) -> (r: &'static str)
        ensures
            r@ == "crossref"@,
    {
        "crossref"
    }

    /// CrossRef offers no search here.
    pub fn search(&self, query: &str, limit: usize) -> (r: Result<Vec<Paper>, String>)
        ensures
            r matches Err(e) && e@ == "crossref search not yet implemented"@,
    {
        Err(to_string("crossref search not yet implemented"))
    }
}

/// Percent-encode a DOI for use in a URL path segment, keeping its `/`.
pub fn urlenc_doi(s: &str) -> (r: String)
    ensures
        r@ == percent_encode(vstd::utf8::encode_utf8(s@), true),
{
    encode_doi_path(s)
}

/// Percent-encode a string for use in URL query parameters.
pub fn urlenc(s: &str) -> (r: String)
    ensures
        r@ == percent_encode(vstd::utf8::encode_utf8(s@), false),
{
    encode_query(s)
}

} // verus!
