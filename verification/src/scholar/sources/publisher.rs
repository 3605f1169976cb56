//! Publisher-direct PDF resolver: follows the `citation_pdf_url` meta tag of
//! the DOI's landing page.
//!
//! Most scholarly publishers emit `<meta name="citation_pdf_url" content="…">`
//! for Google Scholar indexing. The link is only ever the publisher's own
//! advertised PDF, fetched with whatever access the caller's network already
//! has: from a subscribed network the PDF downloads, otherwise the publisher
//! answers with a paywall page and the cascade moves on.

use vstd::prelude::*;
use crate::http::{message, Fetched, HttpGet};
use crate::paper::opt_view;
use crate::text::{
    ascii_lower, ascii_lower_exec, chars_of, contains, contains_exec, decimal, find, find_exec,
    find_from, find_from_exec, lemma_find_from_spec, push_str, slice_vec, string_of_range,
    to_string, trim, trim_range, u64_to_string,
};
use crate::web::sources::core_ac::result_view;

verus! {

pub struct PublisherDirect;

/// The quoted value of `attr="…"` or `attr='…'` in a tag, the attribute
/// name being found in the lower-cased tag.
pub open spec fn attr_value(tag: Seq<char>, tag_lower: Seq<char>, attr: Seq<char>) -> Option<
    Seq<char>,
> {
    let key = attr + "="@;
    match find(tag_lower, key) {
        None => None,
        Some(p) => {
            let pos = p + key.len();
            if pos > tag.len() {
                None
            } else {
                let rest = tag.skip(pos);
                if rest.len() == 0 || (rest[0] != '"' && rest[0] != '\'') {
                    None
                } else {
                    let inner = rest.skip(1);
                    match find(inner, seq![rest[0]]) {
                        None => None,
                        Some(e) => Some(inner.take(e)),
                    }
                }
            }
        },
    }
}

/// The end of the tag that starts at `start`: just past its `>`, or the end
/// of the page.
pub open spec fn tag_end(lower: Seq<char>, start: int) -> int {
    match find_from(lower, ">"@, start) {
        Some(e) => e + 1,
        None => lower.len() as int,
    }
}

/// The trimmed, non-empty `content` of a `<meta>` tag that mentions
/// `citation_pdf_url`.
pub open spec fn tag_pdf_url(tag: Seq<char>, tag_lower: Seq<char>) -> Option<Seq<char>> {
    if contains(tag_lower, "citation_pdf_url"@) {
        match attr_value(tag, tag_lower, "content"@) {
            Some(u) => if trim(u).len() > 0 {
                Some(trim(u))
            } else {
                None
            },
            None => None,
        }
    } else {
        None
    }
}

/// The first `citation_pdf_url` of the `<meta>` tags from `from` on.
pub open spec fn pdf_url_from(html: Seq<char>, lower: Seq<char>, from: int) -> Option<Seq<char>>
    decreases html.len() - from,
{
    match find_from(lower, "<meta"@, from) {
        None => None,
        Some(start) => {
            let end = tag_end(lower, start);
            if !(from < end <= html.len()) || lower.len() != html.len() {
                None
            } else {
                match tag_pdf_url(html.subrange(start, end), lower.subrange(start, end)) {
                    Some(u) => Some(u),
                    None => pdf_url_from(html, lower, end),
                }
            }
        },
    }
}

/// The `content` of the first `<meta name="citation_pdf_url" …>` tag of a
/// page (tag and attribute names matched ignoring ASCII case).
pub open spec fn citation_pdf_url(html: Seq<char>) -> Option<Seq<char>> {
    pdf_url_from(html, ascii_lower(html), 0)
}

/// Extracts a quoted attribute value (`attr="…"` or `attr='…'`) from a tag.
pub fn extract_attr(tag: &str, tag_lower: &str, attr: &str) -> (r: Option<String>)
    ensures
        opt_view(r) == attr_value(tag@, tag_lower@, attr@),
{
    let t = chars_of(tag);
    let tl = chars_of(tag_lower);
    let mut key = to_string(attr);
    key.push('=');
    let k = chars_of(key.as_str());
    proof {
        reveal_strlit("=");
        assert(k@ =~= attr@ + "="@);
    }
    let p = match find_exec(&tl, &k) {
        Some(p) => p,
        None => return None,
    };
    let pos = p + k.len();
    if pos > t.len() {
        return None;
    }
    if pos == t.len() {
        assert(t@.skip(pos as int).len() == 0);
        return None;
    }
    let q = t[pos];
    assert(t@.skip(pos as int)[0] == q);
    if q != '"' && q != '\'' {
        return None;
    }
    let inner = slice_vec(&t, pos + 1, t.len());
    assert(inner@ =~= t@.skip(pos as int).skip(1));
    let mut qv: Vec<char> = Vec::new();
    qv.push(q);
    assert(qv@ =~= seq![q]);
    match find_exec(&inner, &qv) {
        Some(e) => {
            assert(inner@.take(e as int) =~= inner@.subrange(0, e as int));
            Some(string_of_range(&inner, 0, e))
        },
        None => None,
    }
}

fn tag_pdf_url_exec(html: &Vec<char>, lower: &Vec<char>, start: usize, end: usize) -> (r: Option<
    String,
>)
    requires
        start <= end <= html@.len(),
        lower@.len() == html@.len(),
    ensures
        opt_view(r) == tag_pdf_url(
            html@.subrange(start as int, end as int),
            lower@.subrange(start as int, end as int),
        ),
{
    let tag_lower = slice_vec(lower, start, end);
    let needle = chars_of("citation_pdf_url");
    if !contains_exec(&tag_lower, &needle) {
        return None;
    }
    let tag = string_of_range(html, start, end);
    let tl = string_of_range(lower, start, end);
    match extract_attr(tag.as_str(), tl.as_str(), "content") {
        Some(u) => {
            let uv = chars_of(u.as_str());
            let t = trim_range(&uv, 0, uv.len());
            assert(uv@.subrange(0, uv@.len() as int) =~= uv@);
            if t.as_str().is_empty() {
                None
            } else {
                Some(t)
            }
        },
        None => None,
    }
}

/// Returns the `content` of the first `<meta name="citation_pdf_url" …>` tag.
pub fn extract_citation_pdf_url(html: &str) -> (r: Option<String>)
    ensures
        opt_view(r) == citation_pdf_url(html@),
{
    let h = chars_of(html);
    let lower = ascii_lower_exec(&h);
    let meta = chars_of("<meta");
    let gt = chars_of(">");
    proof {
        reveal_strlit("<meta");
        reveal_strlit(">");
    }
    let mut from: usize = 0;
    while from <= h.len()
        invariant
            from <= h@.len() + 1,
            h@ == html@,
            lower@ == ascii_lower(h@),
            lower@.len() == h@.len(),
            meta@ == "<meta"@,
            gt@ == ">"@,
            meta@.len() == 5,
            gt@.len() == 1,
            citation_pdf_url(h@) == pdf_url_from(h@, lower@, from as int),
        decreases h@.len() + 1 - from,
    {
        let start = match find_from_exec(&lower, &meta, from) {
            Some(s) => s,
            None => return None,
        };
        let end = match find_from_exec(&lower, &gt, start) {
            Some(e) => e + 1,
            None => h.len(),
        };
        proof {
            assert(end as int == tag_end(lower@, start as int));
            assert(start + 5 <= h@.len());
        }
        match tag_pdf_url_exec(&h, &lower, start, end) {
            Some(u) => return Some(u),
            None => {},
        }
        from = end;
    }
    None
}

/// Where the DOI resolves to.
pub open spec fn landing_url(doi: Seq<char>) -> Seq<char> {
    "https://doi.org/"@ + doi
}

/// What the landing page yields, read after the retried request: the
/// advertised PDF, or the request's or the read's error.
pub open spec fn reply_result(reply: Fetched<String>) -> Result<Option<Seq<char>>, Seq<char>> {
    match reply {
        Fetched::Body(html) => Ok(citation_pdf_url(html@)),
        Fetched::Unreadable(e) => Err("landing page read failed: "@ + e@),
        Fetched::Status(code, _) => Err("HTTP status "@ + decimal(code as nat)),
        Fetched::Transport(e) => Err("transport error: "@ + e@),
    }
}

impl PublisherDirect {
    pub fn new() -> Self {
        PublisherDirect
    }

    /// Resolves `doi` to the publisher's advertised PDF; `fetch` requests the
    /// landing page (retrying transient transport errors) and reads it as
    /// text.
    pub fn find_pdf<F: FnOnce(HttpGet) -> Fetched<String>>(&self, doi: &str, fetch: F) -> (r: Result<
        Option<String>,
        String,
    >)
        requires
            forall|g: HttpGet| fetch.requires((g,)),
        ensures
            exists|g: HttpGet, reply: Fetched<String>|
                g.url@ == landing_url(doi@) && g.headers@.len() == 0 && fetch.ensures((g,), reply)
                    && result_view(r) == reply_result(reply),
    {
        let mut url = to_string("https://doi.org/");
        push_str(&mut url, doi);
        let g = crate::http::get_request(url);
        let ghost gg = g;
        let reply = fetch(g);
        let r = match &reply {
            Fetched::Body(html) => Ok(extract_citation_pdf_url(html.as_str())),
            Fetched::Unreadable(e) => Err(message("landing page read failed: ", e.as_str())),
            Fetched::Status(code, _) => {
                let c = u64_to_string(*code as u64);
                Err(message("HTTP status ", c.as_str()))
            },
            Fetched::Transport(e) => Err(message("transport error: ", e.as_str())),
        };
        assert(gg.url@ == landing_url(doi@) && gg.headers@.len() == 0 && fetch.ensures((gg,), reply)
            && result_view(r) == reply_result(reply));
        r
    }
}

} // verus!
