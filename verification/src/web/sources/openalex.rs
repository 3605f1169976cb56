//! OpenAlex: keyword search over the `works` API.

use vstd::prelude::*;
use crate::http::{get_request, message, Fetched, HttpGet};
use crate::json::{as_array, as_object, as_str, as_u64, at, Json, JsonV};
use crate::paper::{author_names, opt_view, Author, Paper};
use crate::text::{
    chars_of, decimal, join, join_strings, push_str, starts_with, starts_with_exec,
    string_of_range, to_string, u64_to_string,
};
use crate::urlenc::{encode_query, percent_encode};
use crate::web::sources::crossref::{or_else, str_at};

verus! {

/// OpenAlex as a search source; `email` joins OpenAlex's polite pool.
pub struct OpenAlex {
    pub email: Option<String>,
}

/// The largest page OpenAlex is asked for.
pub const MAX_PER_PAGE: usize = 50;

/// The search URL for `query`, at most `limit` results.
pub open spec fn search_url(query: Seq<char>, limit: int, email: Option<Seq<char>>) -> Seq<char> {
    let capped = if limit < MAX_PER_PAGE {
        limit
    } else {
        MAX_PER_PAGE as int
    };
    let base = "https://api.openalex.org/works?search="@ + percent_encode(
        vstd::utf8::encode_utf8(query),
        false,
    ) + "&per_page="@ + decimal(capped as nat);
    match email {
        Some(e) => base + "&mailto="@ + percent_encode(vstd::utf8::encode_utf8(e), false),
        None => base,
    }
}

/// A DOI without its `https://doi.org/` prefix.
pub open spec fn bare_doi(d: Seq<char>) -> Seq<char> {
    if starts_with(d, "https://doi.org/"@) {
        d.skip(16)
    } else {
        d
    }
}

/// The word/position pairs of an inverted index, in the index's order: each
/// word once for every non-negative integer position listed for it.
pub open spec fn index_entries(members: Seq<(Seq<char>, JsonV)>) -> Seq<(u64, Seq<char>)>
    decreases members.len(),
{
    if members.len() == 0 {
        seq![]
    } else {
        index_entries(members.drop_last()) + match as_array(members.last().1) {
            Some(ps) => word_positions(ps, members.last().0),
            None => seq![],
        }
    }
}

/// `(p, word)` for each position `p` of `ps` that is a non-negative integer.
pub open spec fn word_positions(ps: Seq<JsonV>, word: Seq<char>) -> Seq<(u64, Seq<char>)>
    decreases ps.len(),
{
    if ps.len() == 0 {
        seq![]
    } else {
        word_positions(ps.drop_last(), word) + match as_u64(ps.last()) {
            Some(p) => seq![(p, word)],
            None => seq![],
        }
    }
}

/// How many entries of `s` sit at a position no later than `p`.
pub open spec fn count_le(s: Seq<(u64, Seq<char>)>, p: u64) -> nat
    decreases s.len(),
{
    if s.len() == 0 {
        0
    } else {
        count_le(s.drop_last(), p) + if s.last().0 <= p {
            1nat
        } else {
            0nat
        }
    }
}

/// `s` ordered by position, entries at equal positions keeping their order
/// in `s` (a stable sort): each entry goes in behind every earlier entry at a
/// position no later than its own.
pub open spec fn by_position(s: Seq<(u64, Seq<char>)>) -> Seq<(u64, Seq<char>)>
    decreases s.len(),
{
    if s.len() == 0 {
        seq![]
    } else {
        let sorted = by_position(s.drop_last());
        let j = count_le(s.drop_last(), s.last().0) as int;
        sorted.take(j) + seq![s.last()] + sorted.skip(j)
    }
}

/// The abstract an inverted index stands for: its words in position order,
/// joined by single spaces.
pub open spec fn abstract_of(members: Seq<(Seq<char>, JsonV)>) -> Seq<char> {
    join(by_position(index_entries(members)).map_values(|e: (u64, Seq<char>)| e.1), seq![' '])
}

/// The display names of the authorships that carry one.
pub open spec fn authorship_names(a: Seq<JsonV>) -> Seq<Seq<char>>
    decreases a.len(),
{
    if a.len() == 0 {
        seq![]
    } else {
        authorship_names(a.drop_last()) + match as_str(at(at(a.last(), "author"@), "display_name"@)) {
            Some(n) => seq![n],
            None => seq![],
        }
    }
}

/// The paper an OpenAlex `work` object describes.
pub open spec fn work_paper_ok(work: JsonV, p: Paper) -> bool {
    &&& p.title@ == match str_at(work, "title"@) {
        Some(t) => t,
        None => "(untitled)"@,
    }
    &&& author_names(p.authors@) == match as_array(at(work, "authorships"@)) {
        Some(a) => authorship_names(a),
        None => seq![],
    }
    &&& opt_view(p.doi) == match str_at(work, "doi"@) {
        Some(d) => Some(bare_doi(d)),
        None => None,
    }
    &&& opt_view(p.abstract_text) == match as_object(at(work, "abstract_inverted_index"@)) {
        Some(m) => Some(abstract_of(m)),
        None => None,
    }
    &&& opt_view(p.date) == str_at(work, "publication_date"@)
    &&& opt_view(p.publication) == as_str(
        at(at(at(work, "primary_location"@), "source"@), "display_name"@),
    )
    &&& opt_view(p.volume) == as_str(at(at(work, "biblio"@), "volume"@))
    &&& opt_view(p.pages) == as_str(at(at(work, "biblio"@), "first_page"@))
    &&& opt_view(p.url) == as_str(at(at(work, "primary_location"@), "landing_page_url"@))
    &&& opt_view(p.pdf_url) == or_else(
        as_str(at(at(work, "open_access"@), "oa_url"@)),
        as_str(at(at(work, "best_oa_location"@), "pdf_url"@)),
    )
    &&& p.arxiv_id is None
    &&& opt_view(p.source) == Some("openalex"@)
    &&& p.cited_by_count == as_u64(at(work, "cited_by_count"@))
}

/// Law: a work's paper names as its publication the string
/// `primary_location.source.display_name`, whatever else the source holds
/// (the publisher among it): two works whose sources share that display name
/// give the same publication.
pub proof fn law_openalex_publication_is_display_name(w1: JsonV, p1: Paper, w2: JsonV, p2: Paper)
    requires
        work_paper_ok(w1, p1),
        work_paper_ok(w2, p2),
    ensures
        opt_view(p1.publication) == as_str(
            at(at(at(w1, "primary_location"@), "source"@), "display_name"@),
        ),
        as_str(at(at(at(w1, "primary_location"@), "source"@), "display_name"@)) == as_str(
            at(at(at(w2, "primary_location"@), "source"@), "display_name"@),
        ) ==> opt_view(p1.publication) == opt_view(p2.publication),
{
}

/// Law: the other bibliographic fields of a work's paper are read straight
/// from the work: the DOI without its `https://doi.org/` prefix, the
/// publication date, the volume and first page from `biblio`, the landing
/// page from the primary location; and the paper comes from `openalex`.
pub proof fn law_openalex_fields(work: JsonV, p: Paper)
    requires
        work_paper_ok(work, p),
    ensures
        as_str(at(work, "doi"@)) matches Some(d) ==> p.doi is Some && (if starts_with(d, "https://doi.org/"@) {
            opt_view(p.doi) == Some(d.skip(16))
        } else {
            opt_view(p.doi) == Some(d)
        }),
        as_str(at(work, "doi"@)) is None ==> p.doi is None,
        opt_view(p.date) == as_str(at(work, "publication_date"@)),
        opt_view(p.volume) == as_str(at(at(work, "biblio"@), "volume"@)),
        opt_view(p.pages) == as_str(at(at(work, "biblio"@), "first_page"@)),
        opt_view(p.url) == as_str(at(at(work, "primary_location"@), "landing_page_url"@)),
        opt_view(p.source) == Some("openalex"@),
{
}

/// What a search yields from the reply to its request.
pub open spec fn search_result(reply: Fetched<Json>, r: Result<Vec<Paper>, String>) -> bool {
    match reply {
        Fetched::Body(v) => match as_array(at(v@, "results"@)) {
            Some(works) => r matches Ok(papers) && papers@.len() == works.len() && forall|i: int|
                0 <= i < works.len() ==> #[trigger] work_paper_ok(works[i], papers@[i]),
            None => r matches Err(e) && e@ == "OpenAlex response missing 'results' array"@,
        },
        Fetched::Unreadable(e) => r matches Err(m) && m@ == "OpenAlex JSON parse failed: "@ + e@,
        Fetched::Status(_, e) => r matches Err(m) && m@ == "OpenAlex request failed: "@ + e@,
        Fetched::Transport(e) => r matches Err(m) && m@ == "OpenAlex request failed: "@ + e@,
    }
}

impl OpenAlex {
    pub fn new(email: Option<String>) -> (r: Self)
        ensures
            opt_view(r.email) == opt_view(email),
    {
        OpenAlex { email }
    }

    pub fn name(&self) -> (r: &'static str)
        ensures
            r@ == "openalex"@,
    {
        "openalex"
    }

    /// The search request: the query, a page of at most 50 works, and the
    /// polite-pool address when known.
    pub fn search_request(&self, query: &str, limit: usize) -> (r: HttpGet)
        ensures
            r.url@ == search_url(query@, limit as int, opt_view(self.email)),
            r.headers@.len() == 0,
    {
        let capped = if limit < MAX_PER_PAGE {
            limit
        } else {
            MAX_PER_PAGE
        };
        let mut url = to_string("https://api.openalex.org/works?search=");
        let q = urlenc(query);
        push_str(&mut url, q.as_str());
        push_str(&mut url, "&per_page=");
        let n = u64_to_string(capped as u64);
        push_str(&mut url, n.as_str());
        match &self.email {
            Some(email) => {
                push_str(&mut url, "&mailto=");
                let e = urlenc(email.as_str());
                push_str(&mut url, e.as_str());
            },
            None => {},
        }
        get_request(url)
    }

    /// Reads the answer to the search request.
    pub fn search_reply(&self, reply: &Fetched<Json>) -> (r: Result<Vec<Paper>, String>)
        ensures
            search_result(*reply, r),
    {
        match reply {
            Fetched::Body(v) => {
                let results = v.at("results");
                match results.as_array() {
                    Some(works) => {
                        let mut papers: Vec<Paper> = Vec::new();
                        let mut i: usize = 0;
                        while i < works.len()
                            invariant
                                i <= works@.len(),
                                papers@.len() == i,
                                forall|k: int| 0 <= k < i ==> #[trigger] work_paper_ok(works@[k]@, papers@[k]),
                            decreases works.len() - i,
                        {
                            papers.push(parse_work(&works[i]));
                            i += 1;
                        }
                        proof {
                            let wv = as_array(at(v@, "results"@)).unwrap();
                            assert(wv.len() == works@.len());
                            assert forall|k: int| 0 <= k < wv.len() implies #[trigger] work_paper_ok(
                                wv[k],
                                papers@[k],
                            ) by {
                                assert(wv[k] == works@[k]@);
                            }
                        }
                        Ok(papers)
                    },
                    None => Err(to_string("OpenAlex response missing 'results' array")),
                }
            },
            Fetched::Unreadable(e) => Err(message("OpenAlex JSON parse failed: ", e.as_str())),
            Fetched::Status(_, e) => Err(message("OpenAlex request failed: ", e.as_str())),
            Fetched::Transport(e) => Err(message("OpenAlex request failed: ", e.as_str())),
        }
    }

    /// Searches OpenAlex; `fetch` performs the request.
    pub fn search<F: FnOnce(HttpGet) -> Fetched<Json>>(&self, query: &str, limit: usize, fetch: F) -> (r:
        Result<Vec<Paper>, String>)
        requires
            forall|g: HttpGet| fetch.requires((g,)),
        ensures
            exists|g: HttpGet, reply: Fetched<Json>|
                g.url@ == search_url(query@, limit as int, opt_view(self.email)) && fetch.ensures(
                    (g,),
                    reply,
                ) && search_result(reply, r),
    {
        let g = self.search_request(query, limit);
        let ghost gg = g;
        let reply = fetch(g);
        let r = self.search_reply(&reply);
        assert(gg.url@ == search_url(query@, limit as int, opt_view(self.email)) && fetch.ensures(
            (gg,),
            reply,
        ) && search_result(reply, r));
        r
    }
}

fn str_member(v: &Json, key: &str) -> (r: Option<String>)
    ensures
        opt_view(r) == as_str(at(v@, key@)),
{
    let x = v.at(key);
    match x.as_str() {
        Some(s) => Some(to_string(s)),
        None => None,
    }
}

fn strip_doi_prefix(d: String) -> (r: String)
    ensures
        r@ == bare_doi(d@),
{
    let v = chars_of(d.as_str());
    let p = chars_of("https://doi.org/");
    proof {
        reveal_strlit("https://doi.org/");
    }
    if starts_with_exec(&v, &p) {
        assert(v@.skip(16) =~= v@.subrange(16, v@.len() as int));
        string_of_range(&v, 16, v.len())
    } else {
        d
    }
}

/// Builds a paper from an OpenAlex `work` object.
pub fn parse_work(work: &Json) -> (p: Paper)
    ensures
        work_paper_ok(work@, p),
{
    let title = match str_member(work, "title") {
        Some(t) => t,
        None => to_string("(untitled)"),
    };
    let mut authors: Vec<Author> = Vec::new();
    let list = work.at("authorships");
    match list.as_array() {
        Some(arr) => {
            let ghost av = arr@.map_values(|x: Json| x@);
            let mut i: usize = 0;
            while i < arr.len()
                invariant
                    i <= arr@.len(),
                    av == arr@.map_values(|x: Json| x@),
                    author_names(authors@) == authorship_names(av.take(i as int)),
                decreases arr.len() - i,
            {
                proof {
                    assert(av.take(i + 1).drop_last() =~= av.take(i as int));
                    assert(av.take(i + 1).last() == arr@[i as int]@);
                }
                let a = arr[i].at("author");
                match str_member(&a, "display_name") {
                    Some(name) => {
                        let ghost before = authors@;
                        authors.push(Author { name });
                        assert(author_names(authors@) =~= author_names(before).push(name@));
                    },
                    None => {
                        assert(author_names(authors@) =~= author_names(authors@) + seq![]);
                    },
                }
                i += 1;
            }
            assert(av.take(arr@.len() as int) =~= av);
        },
        None => {
            assert(author_names(authors@) =~= Seq::<Seq<char>>::empty());
        },
    }
    let doi = match str_member(work, "doi") {
        Some(d) => Some(strip_doi_prefix(d)),
        None => None,
    };
    let index = work.at("abstract_inverted_index");
    let abstract_text = match &index {
        Json::Object(members) => {
            proof {
                assert(as_object(index@).unwrap() =~= members@.map_values(
                    |m: (String, Json)| (m.0@, m.1@),
                ));
            }
            Some(reconstruct_abstract(members))
        },
        _ => None,
    };
    let loc = work.at("primary_location");
    let source = loc.at("source");
    let biblio = work.at("biblio");
    let oa = work.at("open_access");
    let best = work.at("best_oa_location");
    let pdf_url = match str_member(&oa, "oa_url") {
        Some(u) => Some(u),
        None => str_member(&best, "pdf_url"),
    };
    Paper {
        title,
        authors,
        doi,
        abstract_text,
        date: str_member(work, "publication_date"),
        publication: str_member(&source, "display_name"),
        volume: str_member(&biblio, "volume"),
        pages: str_member(&biblio, "first_page"),
        url: str_member(&loc, "landing_page_url"),
        pdf_url,
        arxiv_id: None,
        source: Some(to_string("openalex")),
        cited_by_count: work.at("cited_by_count").as_u64(),
    }
}

proof fn lemma_count_le_bound(s: Seq<(u64, Seq<char>)>, p: u64)
    ensures
        count_le(s, p) <= s.len(),
    decreases s.len(),
{
    if s.len() > 0 {
        lemma_count_le_bound(s.drop_last(), p);
    }
}

proof fn lemma_by_position_len(s: Seq<(u64, Seq<char>)>)
    ensures
        by_position(s).len() == s.len(),
    decreases s.len(),
{
    if s.len() > 0 {
        lemma_by_position_len(s.drop_last());
        lemma_count_le_bound(s.drop_last(), s.last().0);
    }
}

/// Every entry sits no later than the one behind it.
pub open spec fn position_sorted(s: Seq<(u64, Seq<char>)>) -> bool {
    forall|i: int, j: int| 0 <= i < j < s.len() ==> s[i].0 <= s[j].0
}

proof fn lemma_count_le_sorted(s: Seq<(u64, Seq<char>)>, t: Seq<(u64, Seq<char>)>, p: u64)
    requires
        t == by_position(s),
        position_sorted(t),
    ensures
        forall|i: int| 0 <= i < count_le(s, p) ==> #[trigger] t[i].0 <= p,
        forall|i: int| count_le(s, p) <= i < t.len() ==> #[trigger] t[i].0 > p,
    decreases s.len(),
{
    lemma_by_position_len(s);
    lemma_count_le_bound(s, p);
    if s.len() > 0 {
        let s0 = s.drop_last();
        let t0 = by_position(s0);
        let e = s.last();
        let j = count_le(s0, e.0) as int;
        lemma_by_position_len(s0);
        lemma_count_le_bound(s0, e.0);
        lemma_count_le_bound(s0, p);
        assert(t =~= t0.take(j) + seq![e] + t0.skip(j));
        assert(position_sorted(t0)) by {
            assert forall|a: int, b: int| 0 <= a < b < t0.len() implies t0[a].0 <= t0[b].0 by {
                let a2 = if a < j { a } else { a + 1 };
                let b2 = if b < j { b } else { b + 1 };
                assert(t[a2] == t0[a]);
                assert(t[b2] == t0[b]);
            }
        }
        lemma_count_le_sorted(s0, t0, p);
        lemma_count_le_sorted(s0, t0, e.0);
        let c = count_le(s0, p) as int;
        if e.0 <= p {
            assert(j <= c) by {
                if j > c {
                    assert(t0[c].0 <= e.0);
                    assert(t0[c].0 > p);
                }
            }
            assert forall|i: int| 0 <= i < c + 1 implies #[trigger] t[i].0 <= p by {
                if i < j {
                    assert(t[i] == t0[i]);
                } else if i > j {
                    assert(t[i] == t0[i - 1]);
                }
            }
            assert forall|i: int| c + 1 <= i < t.len() implies #[trigger] t[i].0 > p by {
                assert(t[i] == t0[i - 1]);
            }
        } else {
            assert(c <= j) by {
                if c > j {
                    assert(t0[j].0 <= p);
                    assert(t0[j].0 > e.0);
                }
            }
            assert forall|i: int| 0 <= i < c implies #[trigger] t[i].0 <= p by {
                assert(t[i] == t0[i]);
            }
            assert forall|i: int| c <= i < t.len() implies #[trigger] t[i].0 > p by {
                if i < j {
                    assert(t[i] == t0[i]);
                } else if i > j {
                    assert(t[i] == t0[i - 1]);
                }
            }
        }
    }
}

/// The words of a reconstructed abstract come in position order.
pub proof fn lemma_by_position_sorted(s: Seq<(u64, Seq<char>)>)
    ensures
        position_sorted(by_position(s)),
        by_position(s).len() == s.len(),
    decreases s.len(),
{
    lemma_by_position_len(s);
    if s.len() > 0 {
        let s0 = s.drop_last();
        let t0 = by_position(s0);
        let e = s.last();
        let j = count_le(s0, e.0) as int;
        lemma_by_position_sorted(s0);
        lemma_by_position_len(s0);
        lemma_count_le_bound(s0, e.0);
        lemma_count_le_sorted(s0, t0, e.0);
        let t = by_position(s);
        assert(t =~= t0.take(j) + seq![e] + t0.skip(j));
        assert forall|a: int, b: int| 0 <= a < b < t.len() implies t[a].0 <= t[b].0 by {
            if a < j && b < j {
                assert(t[a] == t0[a] && t[b] == t0[b]);
            } else if a < j && b == j {
                assert(t[a] == t0[a]);
            } else if a < j {
                assert(t[a] == t0[a] && t[b] == t0[b - 1]);
            } else if a == j {
                assert(t[b] == t0[b - 1]);
            } else {
                assert(t[a] == t0[a - 1] && t[b] == t0[b - 1]);
            }
        }
    }
}

fn collect_entries(members: &Vec<(String, Json)>) -> (r: Vec<(u64, String)>)
    ensures
        r@.map_values(|e: (u64, String)| (e.0, e.1@)) == index_entries(
            members@.map_values(|m: (String, Json)| (m.0@, m.1@)),
        ),
{
    let ghost mv = members@.map_values(|m: (String, Json)| (m.0@, m.1@));
    let mut out: Vec<(u64, String)> = Vec::new();
    let mut i: usize = 0;
    while i < members.len()
        invariant
            i <= members@.len(),
            mv == members@.map_values(|m: (String, Json)| (m.0@, m.1@)),
            out@.map_values(|e: (u64, String)| (e.0, e.1@)) == index_entries(mv.take(i as int)),
        decreases members.len() - i,
    {
        proof {
            assert(mv.take(i + 1).drop_last() =~= mv.take(i as int));
            assert(mv.take(i + 1).last() == mv[i as int]);
        }
        let word = &members[i].0;
        let ghost before = out@.map_values(|e: (u64, String)| (e.0, e.1@));
        match members[i].1.as_array() {
            Some(ps) => {
                let ghost pv = ps@.map_values(|x: Json| x@);
                let mut k: usize = 0;
                while k < ps.len()
                    invariant
                        k <= ps@.len(),
                        pv == ps@.map_values(|x: Json| x@),
                        out@.map_values(|e: (u64, String)| (e.0, e.1@)) == before + word_positions(
                            pv.take(k as int),
                            word@,
                        ),
                    decreases ps.len() - k,
                {
                    proof {
                        assert(pv.take(k + 1).drop_last() =~= pv.take(k as int));
                        assert(pv.take(k + 1).last() == ps@[k as int]@);
                    }
                    let ghost mid = out@.map_values(|e: (u64, String)| (e.0, e.1@));
                    match ps[k].as_u64() {
                        Some(p) => {
                            out.push((p, to_string(word.as_str())));
                            assert(out@.map_values(|e: (u64, String)| (e.0, e.1@)) =~= mid.push(
                                (p, word@),
                            ));
                            assert(before + word_positions(pv.take(k + 1), word@) =~= before
                                + word_positions(pv.take(k as int), word@) + seq![(p, word@)]);
                        },
                        None => {
                            assert(before + word_positions(pv.take(k + 1), word@) =~= before
                                + word_positions(pv.take(k as int), word@));
                        },
                    }
                    k += 1;
                }
                assert(pv.take(ps@.len() as int) =~= pv);
            },
            None => {
                assert(before + seq![] =~= before);
            },
        }
        i += 1;
    }
    assert(mv.take(members@.len() as int) =~= mv);
    out
}

/// Reconstructs an abstract from OpenAlex's inverted index, which maps each
/// word to the positions where it occurs: the words in position order,
/// joined with spaces.
pub fn reconstruct_abstract(members: &Vec<(String, Json)>) -> (r: String)
    ensures
        r@ == abstract_of(members@.map_values(|m: (String, Json)| (m.0@, m.1@))),
{
    let entries = collect_entries(members);
    let ghost ev = entries@.map_values(|e: (u64, String)| (e.0, e.1@));
    let mut sorted: Vec<(u64, String)> = Vec::new();
    let mut i: usize = 0;
    while i < entries.len()
        invariant
            i <= entries@.len(),
            ev == entries@.map_values(|e: (u64, String)| (e.0, e.1@)),
            sorted@.map_values(|e: (u64, String)| (e.0, e.1@)) == by_position(ev.take(i as int)),
        decreases entries.len() - i,
    {
        let ghost s0 = ev.take(i as int);
        let ghost t0 = sorted@.map_values(|e: (u64, String)| (e.0, e.1@));
        let p = entries[i].0;
        proof {
            lemma_by_position_sorted(s0);
            lemma_count_le_sorted(s0, t0, p);
            lemma_count_le_bound(s0, p);
            assert(ev.take(i + 1).drop_last() =~= s0);
            assert(ev.take(i + 1).last() == ev[i as int]);
        }
        // Insertion point: behind every entry at a position no later than p.
        let mut j: usize = sorted.len();
        while j > 0 && sorted[j - 1].0 > p
            invariant
                j <= sorted@.len(),
                t0 == sorted@.map_values(|e: (u64, String)| (e.0, e.1@)),
                t0.len() == s0.len(),
                count_le(s0, p) <= j,
                forall|k: int| 0 <= k < count_le(s0, p) ==> #[trigger] t0[k].0 <= p,
            decreases j,
        {
            assert(t0[j - 1].0 == sorted@[j - 1].0);
            j -= 1;
        }
        proof {
            if j > count_le(s0, p) {
                assert(t0[j - 1].0 == sorted@[j - 1].0);
                assert(t0[j - 1].0 > p);
            }
        }
        sorted.insert(j, (p, to_string(entries[i].1.as_str())));
        proof {
            let e = ev[i as int];
            assert(sorted@.map_values(|e: (u64, String)| (e.0, e.1@)) =~= t0.take(j as int) + seq![e]
                + t0.skip(j as int));
        }
        i += 1;
    }
    assert(ev.take(entries@.len() as int) =~= ev);
    let mut words: Vec<String> = Vec::new();
    let mut k: usize = 0;
    while k < sorted.len()
        invariant
            k <= sorted@.len(),
            words@.map_values(|s: String| s@) == sorted@.map_values(|e: (u64, String)| e.1@).take(
                k as int,
            ),
        decreases sorted.len() - k,
    {
        let w = to_string(sorted[k].1.as_str());
        let ghost before = words@.map_values(|s: String| s@);
        words.push(w);
        proof {
            let sv = sorted@.map_values(|e: (u64, String)| e.1@);
            assert(sv[k as int] == w@);
            assert(words@.map_values(|s: String| s@) =~= before.push(w@));
            assert(sv.take(k + 1) =~= sv.take(k as int).push(sv[k as int]));
        }
        k += 1;
    }
    let space = to_string(" ");
    proof {
        reveal_strlit(" ");
        let sv = sorted@.map_values(|e: (u64, String)| e.1@);
        assert(sv.take(sorted@.len() as int) =~= sv);
        assert(sv =~= sorted@.map_values(|e: (u64, String)| (e.0, e.1@)).map_values(
            |e: (u64, Seq<char>)| e.1,
        ));
    }
    assert(space@ =~= seq![' ']);
    join_strings(&words, space.as_str())
}

/// Percent-encode a string for use in URL query parameters.
pub fn urlenc(s: &str) -> (r: String)
    ensures
        r@ == percent_encode(vstd::utf8::encode_utf8(s@), false),
{
    encode_query(s)
}

/// Ordering by position neither drops nor repeats a word: the sorted entries
/// are a rearrangement of the index's entries.
pub proof fn law_by_position_permutes(s: Seq<(u64, Seq<char>)>)
    ensures
        by_position(s).to_multiset() == s.to_multiset(),
    decreases s.len(),
{
    if s.len() == 0 {
        assert(by_position(s) =~= s);
    } else {
        let s0 = s.drop_last();
        let t0 = by_position(s0);
        let e = s.last();
        let j = count_le(s0, e.0) as int;
        law_by_position_permutes(s0);
        lemma_by_position_len(s0);
        lemma_count_le_bound(s0, e.0);
        assert(by_position(s) =~= t0.insert(j, e));
        vstd::seq_lib::to_multiset_insert(t0, j, e);
        vstd::seq_lib::to_multiset_build(s0, e);
        assert(s =~= s0.push(e));
    }
}

} // verus!
