//! Fetching a paper by identifier, and the open-access PDF cascade.
//!
//! Each PDF resolver is best-effort: a lookup failure (network, 5xx, bad key)
//! must not block importing the metadata already in hand, so every resolver's
//! error is downgraded to "no PDF". The candidates are tried in the order
//! Unpaywall, DOAJ, CORE, fatcat, then the PDF the metadata source itself
//! reported; the first that actually downloads wins, so a dead link in one
//! source falls through to the next. The program performs the downloads.

use vstd::prelude::*;
use crate::paper::{opt_view, Paper};
use crate::scholar::sources::arxiv::ArXiv;
use crate::scholar::sources::crossref::CrossRef;
use crate::text::to_string;

verus! {

/// The URL a resolver produced, or nothing when it failed.
pub open spec fn found(res: Result<Option<String>, String>) -> Option<Seq<char>> {
    match res {
        Ok(u) => opt_view(u),
        Err(_) => None,
    }
}

/// Runs one PDF resolver, downgrading its error to `None`, so that a single
/// source's failure does not abort the whole fetch.
pub fn try_source<F: FnOnce() -> Result<Option<String>, String>>(name: &str, f: F) -> (r: Option<String>)
    requires
        f.requires(()),
    ensures
        exists|res: Result<Option<String>, String>| f.ensures((), res) && opt_view(r) == found(res),
{
    let res = f();
    let ghost rr = res;
    let r = match res {
        Ok(u) => u,
        Err(_) => None,
    };
    assert(f.ensures((), rr) && opt_view(r) == found(rr));
    r
}

/// A named candidate when there is a URL.
pub open spec fn named(name: Seq<char>, url: Option<Seq<char>>) -> Seq<(Seq<char>, Seq<char>)> {
    match url {
        Some(u) => seq![(name, u)],
        None => seq![],
    }
}

/// The candidates of the cascade, in the order they are tried.
pub open spec fn cascade(
    unpaywall: Option<Seq<char>>,
    doaj: Option<Seq<char>>,
    core: Option<Seq<char>>,
    fatcat: Option<Seq<char>>,
    reported: Option<Seq<char>>,
) -> Seq<(Seq<char>, Seq<char>)> {
    named("Unpaywall"@, unpaywall) + named("DOAJ"@, doaj) + named("CORE"@, core) + named(
        "fatcat"@,
        fatcat,
    ) + named("OpenAlex/S2"@, reported)
}

fn push_named(out: &mut Vec<(String, String)>, name: &str, url: Option<String>)
    ensures
        final(out)@.map_values(|c: (String, String)| (c.0@, c.1@)) == old(out)@.map_values(
            |c: (String, String)| (c.0@, c.1@),
        ) + named(name@, opt_view(url)),
{
    let ghost before = out@.map_values(|c: (String, String)| (c.0@, c.1@));
    match url {
        Some(u) => {
            let ghost uu = u@;
            out.push((to_string(name), u));
            assert(out@.map_values(|c: (String, String)| (c.0@, c.1@)) =~= before + seq![(name@, uu)]);
        },
        None => {
            assert(out@.map_values(|c: (String, String)| (c.0@, c.1@)) =~= before + seq![]);
        },
    }
}

/// The download candidates, as (source name, URL), in cascade order, given
/// what each resolver found and the PDF the metadata reported.
pub fn pdf_candidates(
    unpaywall: Option<String>,
    doaj: Option<String>,
    core: Option<String>,
    fatcat: Option<String>,
    reported: Option<String>,
) -> (r: Vec<(String, String)>)
    ensures
        r@.map_values(|c: (String, String)| (c.0@, c.1@)) == cascade(
            opt_view(unpaywall),
            opt_view(doaj),
            opt_view(core),
            opt_view(fatcat),
            opt_view(reported),
        ),
{
    let mut out: Vec<(String, String)> = Vec::new();
    assert(out@.map_values(|c: (String, String)| (c.0@, c.1@)) =~= Seq::<(Seq<char>, Seq<char>)>::empty());
    push_named(&mut out, "Unpaywall", unpaywall);
    push_named(&mut out, "DOAJ", doaj);
    push_named(&mut out, "CORE", core);
    push_named(&mut out, "fatcat", fatcat);
    push_named(&mut out, "OpenAlex/S2", reported);
    assert(out@.map_values(|c: (String, String)| (c.0@, c.1@)) =~= cascade(
        opt_view(unpaywall),
        opt_view(doaj),
        opt_view(core),
        opt_view(fatcat),
        opt_view(reported),
    ));
    out
}

/// The paper with the PDF that was downloaded, when one was: the resolved
/// URL replaces whatever the metadata reported; without one the paper is
/// unchanged.
pub fn with_resolved_pdf(paper: Paper, resolved: Option<String>) -> (r: Paper)
    ensures
        opt_view(r.pdf_url) == match opt_view(resolved) {
            Some(u) => Some(u),
            None => opt_view(paper.pdf_url),
        },
        r.title == paper.title,
        r.authors == paper.authors,
        r.doi == paper.doi,
        r.abstract_text == paper.abstract_text,
        r.date == paper.date,
        r.publication == paper.publication,
        r.volume == paper.volume,
        r.pages == paper.pages,
        r.url == paper.url,
        r.arxiv_id == paper.arxiv_id,
        r.source == paper.source,
        r.cited_by_count == paper.cited_by_count,
{
    let mut paper = paper;
    match resolved {
        Some(u) => {
            paper.pdf_url = Some(u);
        },
        None => {},
    }
    paper
}

/// The metadata of a DOI. The scholar tool's CrossRef source is not wired
/// up, so this refuses with its message.
pub fn fetch_doi(doi: &str) -> (r: Result<Paper, String>)
    ensures
        r matches Err(e) && e@ == "crossref fetch_doi not yet implemented"@,
{
    let crossref = CrossRef::new();
    crossref.fetch_doi(doi)
}

/// The metadata of an arXiv paper; its `pdf_url` is the program's to
/// download. The scholar tool's arXiv source is not wired up, so this
/// refuses with its message.
pub fn fetch_arxiv(arxiv_id: &str) -> (r: Result<Paper, String>)
    ensures
        r matches Err(e) && e@ == "arxiv fetch_id not yet implemented"@,
{
    let arxiv = ArXiv::new();
    arxiv.fetch_id(arxiv_id)
}

} // verus!
