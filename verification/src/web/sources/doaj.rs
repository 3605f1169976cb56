//! DOAJ (Directory of Open Access Journals) full-text PDF resolver.
//!
//! DOAJ only indexes peer-reviewed open-access journals, so any full text it
//! lists is free to read. The article search is queried by DOI; a `fulltext`
//! link whose `content_type` is PDF wins, else the first `fulltext` link.

use vstd::prelude::*;
use crate::http::{message, Fetched, HttpGet};
use crate::json::{as_array, as_str, at, Json, JsonV};
use crate::paper::opt_view;
use crate::text::{ascii_lower, eq_ignore_ascii_case, push_str, to_string};
use crate::urlenc::{encode_query, percent_encode};
use crate::web::sources::core_ac::result_view;

verus! {

/// DOAJ as a PDF resolver.
pub struct Doaj;

/// Whether a content type names PDF, in any ASCII case.
pub fn eq_pdf(s: &str) -> (r: bool)
    ensures
        r == (ascii_lower(s@) == ascii_lower("pdf"@)),
{
    eq_ignore_ascii_case(s, "pdf")
}

/// The links of an article's `bibjson.link` list (none when it is no list).
pub open spec fn article_links(article: JsonV) -> Seq<JsonV> {
    match as_array(at(at(article, "bibjson"@), "link"@)) {
        Some(l) => l,
        None => seq![],
    }
}

/// All links of the articles, in order.
pub open spec fn all_links(articles: Seq<JsonV>) -> Seq<JsonV>
    decreases articles.len(),
{
    if articles.len() == 0 {
        seq![]
    } else {
        all_links(articles.drop_last()) + article_links(articles.last())
    }
}

/// The URL of a `fulltext` link with a non-empty string `url`.
pub open spec fn fulltext_url(link: JsonV) -> Option<Seq<char>> {
    if as_str(at(link, "type"@)) == Some("fulltext"@) {
        match as_str(at(link, "url"@)) {
            Some(u) => if u.len() > 0 {
                Some(u)
            } else {
                None
            },
            None => None,
        }
    } else {
        None
    }
}

pub open spec fn is_pdf_link(link: JsonV) -> bool {
    match as_str(at(link, "content_type"@)) {
        Some(ct) => ascii_lower(ct) == ascii_lower("pdf"@),
        None => false,
    }
}

/// The first full-text URL among `links` whose content type is PDF.
pub open spec fn first_pdf(links: Seq<JsonV>) -> Option<Seq<char>>
    decreases links.len(),
{
    if links.len() == 0 {
        None
    } else if fulltext_url(links[0]) is Some && is_pdf_link(links[0]) {
        fulltext_url(links[0])
    } else {
        first_pdf(links.drop_first())
    }
}

/// The first full-text URL among `links`.
pub open spec fn first_fulltext(links: Seq<JsonV>) -> Option<Seq<char>>
    decreases links.len(),
{
    if links.len() == 0 {
        None
    } else if fulltext_url(links[0]) is Some {
        fulltext_url(links[0])
    } else {
        first_fulltext(links.drop_first())
    }
}

/// The PDF a DOAJ search response offers.
pub open spec fn pdf_in(resp: JsonV) -> Option<Seq<char>> {
    match as_array(at(resp, "results"@)) {
        Some(articles) => {
            let links = all_links(articles);
            match first_pdf(links) {
                Some(u) => Some(u),
                None => first_fulltext(links),
            }
        },
        None => None,
    }
}

pub open spec fn reply_result(reply: Fetched<Json>) -> Result<Option<Seq<char>>, Seq<char>> {
    match reply {
        Fetched::Body(v) => Ok(pdf_in(v@)),
        Fetched::Unreadable(e) => Err("DOAJ JSON parse failed: "@ + e@),
        Fetched::Status(code, e) => if code == 404 || code == 400 {
            Ok(None)
        } else {
            Err("DOAJ request failed: "@ + e@)
        },
        Fetched::Transport(e) => Err("DOAJ request failed: "@ + e@),
    }
}

/// The search URL: the `doi:` query is one path segment, so its `/` is
/// escaped too.
pub open spec fn search_url(doi: Seq<char>) -> Seq<char> {
    "https://doaj.org/api/v4/search/articles/"@ + percent_encode(
        vstd::utf8::encode_utf8("doi:"@ + doi),
        false,
    )
}

fn fulltext_url_exec(link: &Json) -> (r: Option<String>)
    ensures
        opt_view(r) == fulltext_url(link@),
{
    let t = link.at("type");
    let is_fulltext = match t.as_str() {
        Some(s) => crate::text::str_eq(s, "fulltext"),
        None => false,
    };
    if !is_fulltext {
        return None;
    }
    let u = link.at("url");
    match u.as_str() {
        Some(s) => if s.is_empty() {
            None
        } else {
            Some(to_string(s))
        },
        None => None,
    }
}

fn is_pdf_link_exec(link: &Json) -> (r: bool)
    ensures
        r == is_pdf_link(link@),
{
    let ct = link.at("content_type");
    match ct.as_str() {
        Some(s) => eq_pdf(s),
        None => false,
    }
}

/// Picks the PDF link of a DOAJ search response.
pub fn select_pdf(resp: &Json) -> (r: Option<String>)
    ensures
        opt_view(r) == pdf_in(resp@),
{
    let results = resp.at("results");
    let articles = match results.as_array() {
        Some(a) => a,
        None => return None,
    };
    let ghost av = articles@.map_values(|x: Json| x@);
    // Gather every link, article by article.
    let mut links: Vec<Json> = Vec::new();
    let mut i: usize = 0;
    while i < articles.len()
        invariant
            i <= articles@.len(),
            av == articles@.map_values(|x: Json| x@),
            links@.map_values(|x: Json| x@) == all_links(av.take(i as int)),
        decreases articles.len() - i,
    {
        proof {
            assert(av.take(i + 1).drop_last() =~= av.take(i as int));
            assert(av.take(i + 1).last() == articles@[i as int]@);
        }
        let bib = articles[i].at("bibjson");
        let link_list = bib.at("link");
        let ghost before = links@.map_values(|x: Json| x@);
        match link_list.as_array() {
            Some(l) => {
                let mut k: usize = 0;
                while k < l.len()
                    invariant
                        k <= l@.len(),
                        links@.map_values(|x: Json| x@) == before + l@.map_values(
                            |x: Json| x@,
                        ).take(k as int),
                    decreases l.len() - k,
                {
                    let ghost prev = links@;
                    let item = l[k].clone_json();
                    links.push(item);
                    proof {
                        let lm = l@.map_values(|x: Json| x@);
                        assert(links@ == prev.push(item));
                        assert(links@.map_values(|x: Json| x@) =~= prev.map_values(|x: Json| x@).push(
                            item@,
                        ));
                        assert(lm.take(k + 1) =~= lm.take(k as int).push(lm[k as int]));
                        assert(lm[k as int] == l@[k as int]@);
                    }
                    k += 1;
                    assert(links@.map_values(|x: Json| x@) =~= before + l@.map_values(
                        |x: Json| x@,
                    ).take(k as int));
                }
                assert(l@.map_values(|x: Json| x@).take(l@.len() as int) =~= l@.map_values(
                    |x: Json| x@,
                ));
            },
            None => {
                assert(before + Seq::<JsonV>::empty() =~= before);
            },
        }
        i += 1;
    }
    assert(av.take(articles@.len() as int) =~= av);
    let ghost lv = links@.map_values(|x: Json| x@);
    let ghost answer = pdf_in(resp@);
    assert(answer == match first_pdf(lv) {
        Some(u) => Some(u),
        None => first_fulltext(lv),
    });
    // First pass: a PDF full-text link.
    let mut k: usize = 0;
    assert(lv.skip(0) =~= lv);
    while k < links.len()
        invariant
            k <= links@.len(),
            lv == links@.map_values(|x: Json| x@),
            answer == pdf_in(resp@),
            answer == match first_pdf(lv) {
                Some(u) => Some(u),
                None => first_fulltext(lv),
            },
            first_pdf(lv) == first_pdf(lv.skip(k as int)),
        decreases links.len() - k,
    {
        proof {
            assert(lv.skip(k as int)[0] == links@[k as int]@);
            assert(lv.skip(k as int).drop_first() =~= lv.skip(k + 1));
        }
        match fulltext_url_exec(&links[k]) {
            Some(u) => if is_pdf_link_exec(&links[k]) {
                return Some(u);
            },
            None => {},
        }
        k += 1;
    }
    // Second pass: any full-text link.
    k = 0;
    while k < links.len()
        invariant
            k <= links@.len(),
            lv == links@.map_values(|x: Json| x@),
            answer == pdf_in(resp@),
            answer == first_fulltext(lv),
            first_pdf(lv) is None,
            first_fulltext(lv) == first_fulltext(lv.skip(k as int)),
        decreases links.len() - k,
    {
        proof {
            assert(lv.skip(k as int)[0] == links@[k as int]@);
            assert(lv.skip(k as int).drop_first() =~= lv.skip(k + 1));
        }
        match fulltext_url_exec(&links[k]) {
            Some(u) => return Some(u),
            None => {},
        }
        k += 1;
    }
    None
}

impl Doaj {
    pub fn new() -> Self {
        Doaj
    }

    /// The article search request for `doi`.
    pub fn find_pdf_request(&self, doi: &str) -> (r: HttpGet)
        ensures
            r.url@ == search_url(doi@),
            r.headers@.len() == 1,
            r.headers@[0].0@ == "Accept"@,
            r.headers@[0].1@ == "application/json"@,
    {
        let mut query = to_string("doi:");
        push_str(&mut query, doi);
        let mut url = to_string("https://doaj.org/api/v4/search/articles/");
        let q = urlenc(query.as_str());
        push_str(&mut url, q.as_str());
        let mut headers: Vec<(String, String)> = Vec::new();
        headers.push((to_string("Accept"), to_string("application/json")));
        HttpGet { url, headers }
    }

    /// Reads the answer: no matching article (404) or a rejected query (400)
    /// just mean "no PDF here".
    pub fn find_pdf_reply(&self, reply: &Fetched<Json>) -> (r: Result<Option<String>, String>)
        ensures
            result_view(r) == reply_result(*reply),
    {
        match reply {
            Fetched::Body(v) => Ok(select_pdf(v)),
            Fetched::Unreadable(e) => Err(message("DOAJ JSON parse failed: ", e.as_str())),
            Fetched::Status(code, e) => if *code == 404 || *code == 400 {
                Ok(None)
            } else {
                Err(message("DOAJ request failed: ", e.as_str()))
            },
            Fetched::Transport(e) => Err(message("DOAJ request failed: ", e.as_str())),
        }
    }

    /// Looks up an open-access PDF for `doi`; `fetch` performs the request.
    pub fn find_pdf<F: FnOnce(HttpGet) -> Fetched<Json>>(&self, doi: &str, fetch: F) -> (r: Result<
        Option<String>,
        String,
    >)
        requires
            forall|g: HttpGet| fetch.requires((g,)),
        ensures
            exists|g: HttpGet, reply: Fetched<Json>|
                g.url@ == search_url(doi@) && fetch.ensures((g,), reply) && result_view(r)
                    == reply_result(reply),
    {
        let g = self.find_pdf_request(doi);
        let ghost gg = g;
        let reply = fetch(g);
        let r = self.find_pdf_reply(&reply);
        assert(gg.url@ == search_url(doi@) && fetch.ensures((gg,), reply) && result_view(r)
            == reply_result(reply));
        r
    }
}

/// Percent-encode a string for use in a URL path segment; DOIs contain `/`,
/// which is escaped here because the whole `doi:...` query is one segment.
pub fn urlenc(s: &str) -> (r: String)
    ensures
        r@ == percent_encode(vstd::utf8::encode_utf8(s@), false),
{
    encode_query(s)
}

} // verus!
