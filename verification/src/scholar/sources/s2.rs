//! Semantic Scholar: keyword search over the Graph API.

use vstd::prelude::*;
use crate::http::{get_request, message, Fetched, HttpGet};
use crate::json::{as_array, as_str, as_u64, at, Json, JsonV};
use crate::paper::{author_names, opt_view, Author, Paper};
use crate::scholar::sources::Source;
use crate::text::{decimal, push_str, to_string, u64_to_string};
use crate::urlenc::{encode_query, percent_encode};
use crate::web::sources::crossref::str_at;

verus! {

pub struct SemanticScholar;

/// The largest page Semantic Scholar is asked for.
pub const MAX_LIMIT: usize = 100;

/// The search URL for `query`, at most `limit` results, with the fields a
/// paper record needs.
pub open spec fn search_url(query: Seq<char>, limit: int) -> Seq<char> {
    let capped = if limit < MAX_LIMIT {
        limit
    } else {
        MAX_LIMIT as int
    };
    "https://api.semanticscholar.org/graph/v1/paper/search?query="@ + percent_encode(
        vstd::utf8::encode_utf8(query),
        false,
    ) + "&limit="@ + decimal(capped as nat)
        + "&fields=title,authors,year,abstract,externalIds,openAccessPdf,journal,url,citationCount"@
}

/// The names of the authors that carry one.
pub open spec fn names_of(a: Seq<JsonV>) -> Seq<Seq<char>>
    decreases a.len(),
{
    if a.len() == 0 {
        seq![]
    } else {
        names_of(a.drop_last()) + match str_at(a.last(), "name"@) {
            Some(n) => seq![n],
            None => seq![],
        }
    }
}

/// The year as text: an integer year in decimal, or a string year as is.
pub open spec fn year_text(y: JsonV) -> Option<Seq<char>> {
    match as_u64(y) {
        Some(n) => Some(decimal(n as nat)),
        None => as_str(y),
    }
}

/// The paper a Semantic Scholar record describes.
pub open spec fn record_paper_ok(rec: JsonV, p: Paper) -> bool {
    &&& p.title@ == match str_at(rec, "title"@) {
        Some(t) => t,
        None => "(untitled)"@,
    }
    &&& author_names(p.authors@) == match as_array(at(rec, "authors"@)) {
        Some(a) => names_of(a),
        None => seq![],
    }
    &&& opt_view(p.doi) == as_str(at(at(rec, "externalIds"@), "DOI"@))
    &&& opt_view(p.arxiv_id) == as_str(at(at(rec, "externalIds"@), "ArXiv"@))
    &&& opt_view(p.abstract_text) == str_at(rec, "abstract"@)
    &&& opt_view(p.date) == year_text(at(rec, "year"@))
    &&& opt_view(p.publication) == as_str(at(at(rec, "journal"@), "name"@))
    &&& opt_view(p.volume) == as_str(at(at(rec, "journal"@), "volume"@))
    &&& p.pages is None
    &&& opt_view(p.url) == str_at(rec, "url"@)
    &&& opt_view(p.pdf_url) == as_str(at(at(rec, "openAccessPdf"@), "url"@))
    &&& opt_view(p.source) == Some("s2"@)
    &&& p.cited_by_count == as_u64(at(rec, "citationCount"@))
}

/// What a search yields from the reply to its request.
pub open spec fn search_result(reply: Fetched<Json>, r: Result<Vec<Paper>, String>) -> bool {
    match reply {
        Fetched::Body(v) => match as_array(at(v@, "data"@)) {
            Some(recs) => r matches Ok(papers) && papers@.len() == recs.len() && forall|i: int|
                0 <= i < recs.len() ==> #[trigger] record_paper_ok(recs[i], papers@[i]),
            None => r matches Err(e) && e@ == "Semantic Scholar response missing 'data' array"@,
        },
        Fetched::Unreadable(e) => r matches Err(m) && m@ == "Semantic Scholar JSON parse failed: "@
            + e@,
        Fetched::Status(_, e) => r matches Err(m) && m@ == "Semantic Scholar request failed: "@ + e@,
        Fetched::Transport(e) => r matches Err(m) && m@ == "Semantic Scholar request failed: "@ + e@,
    }
}

fn str_member(v: &Json, key: &str) -> (r: Option<String>)
    ensures
        opt_view(r) == as_str(at(v@, key@)),
{
    let x = v.at(key);
    match x.as_str() {
        Some(s) => Some(to_string(s)),
        None => None,
    }
}

/// Builds a paper from a Semantic Scholar record.
pub fn parse_paper(rec: &Json) -> (p: Paper)
    ensures
        record_paper_ok(rec@, p),
{
    let title = match str_member(rec, "title") {
        Some(t) => t,
        None => to_string("(untitled)"),
    };
    let mut authors: Vec<Author> = Vec::new();
    let list = rec.at("authors");
    match list.as_array() {
        Some(arr) => {
            let ghost av = arr@.map_values(|x: Json| x@);
            let mut i: usize = 0;
            while i < arr.len()
                invariant
                    i <= arr@.len(),
                    av == arr@.map_values(|x: Json| x@),
                    author_names(authors@) == names_of(av.take(i as int)),
                decreases arr.len() - i,
            {
                proof {
                    assert(av.take(i + 1).drop_last() =~= av.take(i as int));
                    assert(av.take(i + 1).last() == arr@[i as int]@);
                }
                match str_member(&arr[i], "name") {
                    Some(name) => {
                        let ghost before = authors@;
                        authors.push(Author { name });
                        assert(author_names(authors@) =~= author_names(before).push(name@));
                    },
                    None => {
                        assert(author_names(authors@) =~= author_names(authors@) + seq![]);
                    },
                }
                i += 1;
            }
            assert(av.take(arr@.len() as int) =~= av);
        },
        None => {
            assert(author_names(authors@) =~= Seq::<Seq<char>>::empty());
        },
    }
    let ids = rec.at("externalIds");
    let journal = rec.at("journal");
    let oa = rec.at("openAccessPdf");
    let year = rec.at("year");
    let date = match year.as_u64() {
        Some(y) => Some(u64_to_string(y)),
        None => match year.as_str() {
            Some(s) => Some(to_string(s)),
            None => None,
        },
    };
    Paper {
        title,
        authors,
        doi: str_member(&ids, "DOI"),
        abstract_text: str_member(rec, "abstract"),
        date,
        publication: str_member(&journal, "name"),
        volume: str_member(&journal, "volume"),
        pages: None,
        url: str_member(rec, "url"),
        pdf_url: str_member(&oa, "url"),
        arxiv_id: str_member(&ids, "ArXiv"),
        source: Some(to_string("s2")),
        cited_by_count: rec.at("citationCount").as_u64(),
    }
}

impl SemanticScholar {
    pub fn new() -> Self {
        SemanticScholar
    }

    /// The search request: the query and a page of at most 100 records.
    pub fn search_request(&self, query: &str, limit: usize) -> (r: HttpGet)
        ensures
            r.url@ == search_url(query@, limit as int),
            r.headers@.len() == 0,
    {
        let capped = if limit < MAX_LIMIT {
            limit
        } else {
            MAX_LIMIT
        };
        let mut url = to_string("https://api.semanticscholar.org/graph/v1/paper/search?query=");
        let q = urlenc(query);
        push_str(&mut url, q.as_str());
        push_str(&mut url, "&limit=");
        let n = u64_to_string(capped as u64);
        push_str(&mut url, n.as_str());
        push_str(
            &mut url,
            "&fields=title,authors,year,abstract,externalIds,openAccessPdf,journal,url,citationCount",
        );
        get_request(url)
    }

    /// Reads the answer to the search request.
    pub fn search_reply(&self, reply: &Fetched<Json>) -> (r: Result<Vec<Paper>, String>)
        ensures
            search_result(*reply, r),
    {
        match reply {
            Fetched::Body(v) => {
                let data = v.at("data");
                match data.as_array() {
                    Some(recs) => {
                        let mut papers: Vec<Paper> = Vec::new();
                        let mut i: usize = 0;
                        while i < recs.len()
                            invariant
                                i <= recs@.len(),
                                papers@.len() == i,
                                forall|k: int| 0 <= k < i ==> #[trigger] record_paper_ok(recs@[k]@, papers@[k]),
                            decreases recs.len() - i,
                        {
                            papers.push(parse_paper(&recs[i]));
                            i += 1;
                        }
                        proof {
                            let rv = as_array(at(v@, "data"@)).unwrap();
                            assert forall|k: int| 0 <= k < rv.len() implies #[trigger] record_paper_ok(
                                rv[k],
                                papers@[k],
                            ) by {
                                assert(rv[k] == recs@[k]@);
                            }
                        }
                        Ok(papers)
                    },
                    None => Err(to_string("Semantic Scholar response missing 'data' array")),
                }
            },
            Fetched::Unreadable(e) => Err(message("Semantic Scholar JSON parse failed: ", e.as_str())),
            Fetched::Status(_, e) => Err(message("Semantic Scholar request failed: ", e.as_str())),
            Fetched::Transport(e) => Err(message("Semantic Scholar request failed: ", e.as_str())),
        }
    }
}

impl Source for SemanticScholar {
    fn name(&self) -> (r: &'static str)
        ensures
            r@ == "s2"@,
    {
        "s2"
    }

    /// Searches Semantic Scholar; `fetch` performs the request.
    fn search<F: FnOnce(HttpGet) -> Fetched<Json>>(&self, query: &str, limit: usize, fetch: F) -> (r:
        Result<Vec<Paper>, String>)
        ensures
            exists|g: HttpGet, reply: Fetched<Json>|
                g.url@ == search_url(query@, limit as int) && fetch.ensures((g,), reply)
                    && search_result(reply, r),
    {
        let g = self.search_request(query, limit);
        let ghost gg = g;
        let reply = fetch(g);
        let r = self.search_reply(&reply);
        assert(gg.url@ == search_url(query@, limit as int) && fetch.ensures((gg,), reply)
            && search_result(reply, r));
        r
    }
}

/// Percent-encode a string for use in URL query parameters.
pub fn urlenc(s: &str) -> (r: String)
    ensures
        r@ == percent_encode(vstd::utf8::encode_utf8(s@), false),
{
    encode_query(s)
}

} // verus!
