//! fatcat / Internet Archive Scholar full-text PDF resolver.
//!
//! fatcat is the open bibliographic catalog behind scholar.archive.org. Its
//! strength is dead-link recovery: when a publisher or repository copy has
//! rotted, fatcat often still points at a preserved snapshot in the Wayback
//! Machine (`web.archive.org`), which makes it the last-resort source of the
//! cascade.
//!
//! A release is looked up by DOI with `expand=files`, and a PDF URL is picked
//! from `files[].urls[]`: PDF-mimetyped files first, and within a rank a live
//! web/repository/publisher URL before a Wayback snapshot (a snapshot is
//! still a good answer). No API key is required.

use vstd::prelude::*;
use crate::http::{message, Fetched, HttpGet};
use crate::json::{as_array, as_str, at, Json, JsonV};
use crate::paper::opt_view;
use crate::text::{
    chars_of, contains, contains_exec, ends_with, ends_with_exec, push_str, to_lowercase,
    to_string, unicode_lower,
};
use crate::urlenc::{encode_query, percent_encode};
use crate::web::sources::core_ac::result_view;

verus! {

pub struct Fatcat;

/// A Wayback Machine snapshot URL.
pub open spec fn wayback(url: Seq<char>) -> bool {
    contains(url, "web.archive.org/"@) || contains(url, "://archive.org/"@)
}

/// A URL that, lower-cased, still looks like a direct PDF link.
pub open spec fn pdf_looking(url: Seq<char>) -> bool {
    let l = unicode_lower(url);
    ends_with(l, ".pdf"@) || contains(l, ".pdf?"@) || contains(l, "/pdf"@)
}

/// The rank of a candidate `(PDF-mimetyped, url)`: 0 live PDF, 1 archived
/// PDF, 2 live PDF-looking URL, 3 archived PDF-looking URL, 4 unusable.
pub open spec fn rank(c: (bool, Seq<char>)) -> int {
    if c.0 {
        if wayback(c.1) {
            1
        } else {
            0
        }
    } else if pdf_looking(c.1) {
        if wayback(c.1) {
            3
        } else {
            2
        }
    } else {
        4
    }
}

/// The non-empty string URLs of `entries`, each paired with the file's
/// PDF-ness.
pub open spec fn entry_candidates(entries: Seq<JsonV>, is_pdf: bool) -> Seq<(bool, Seq<char>)>
    decreases entries.len(),
{
    if entries.len() == 0 {
        seq![]
    } else {
        entry_candidates(entries.drop_last(), is_pdf) + match as_str(at(entries.last(), "url"@)) {
            Some(u) => if u.len() > 0 {
                seq![(is_pdf, u)]
            } else {
                seq![]
            },
            None => seq![],
        }
    }
}

/// Whether a file entity is declared `application/pdf`.
pub open spec fn is_pdf_file(file: JsonV) -> bool {
    as_str(at(file, "mimetype"@)) == Some("application/pdf"@)
}

/// The candidates of one file entity (none when it lists no `urls`).
pub open spec fn file_candidates(file: JsonV) -> Seq<(bool, Seq<char>)> {
    match as_array(at(file, "urls"@)) {
        Some(entries) => entry_candidates(entries, is_pdf_file(file)),
        None => seq![],
    }
}

/// The candidates of all files, in order.
pub open spec fn candidates(files: Seq<JsonV>) -> Seq<(bool, Seq<char>)>
    decreases files.len(),
{
    if files.len() == 0 {
        seq![]
    } else {
        candidates(files.drop_last()) + file_candidates(files.last())
    }
}

/// The first URL of rank `k`.
pub open spec fn first_of_rank(c: Seq<(bool, Seq<char>)>, k: int) -> Option<Seq<char>>
    decreases c.len(),
{
    if c.len() == 0 {
        None
    } else {
        match first_of_rank(c.drop_last(), k) {
            Some(u) => Some(u),
            None => if rank(c.last()) == k {
                Some(c.last().1)
            } else {
                None
            },
        }
    }
}

pub open spec fn or_opt(a: Option<Seq<char>>, b: Option<Seq<char>>) -> Option<Seq<char>> {
    match a {
        Some(x) => Some(x),
        None => b,
    }
}

/// The PDF URL chosen from a release: the first URL of the best rank present.
pub open spec fn best_pdf(release: JsonV) -> Option<Seq<char>> {
    match as_array(at(release, "files"@)) {
        Some(files) => {
            let c = candidates(files);
            or_opt(
                first_of_rank(c, 0),
                or_opt(first_of_rank(c, 1), or_opt(first_of_rank(c, 2), first_of_rank(c, 3))),
            )
        },
        None => None,
    }
}

/// The lookup URL for a DOI, lower-cased (fatcat indexes DOIs lower-case).
pub open spec fn lookup_url(doi: Seq<char>) -> Seq<char> {
    "https://api.fatcat.wiki/v0/release/lookup?doi="@ + percent_encode(
        vstd::utf8::encode_utf8(unicode_lower(doi)),
        false,
    ) + "&expand=files"@
}

/// What a lookup yields from the reply: no release (404) and a malformed DOI
/// (400) both mean "no PDF".
pub open spec fn reply_result(reply: Fetched<Json>) -> Result<Option<Seq<char>>, Seq<char>> {
    match reply {
        Fetched::Body(v) => Ok(best_pdf(v@)),
        Fetched::Unreadable(e) => Err("fatcat JSON parse failed: "@ + e@),
        Fetched::Status(code, e) => if code == 404 || code == 400 {
            Ok(None)
        } else {
            Err("fatcat request failed: "@ + e@)
        },
        Fetched::Transport(e) => Err("fatcat request failed: "@ + e@),
    }
}

/// Whether `url` is a Wayback Machine snapshot.
pub fn is_wayback(url: &str) -> (r: bool)
    ensures
        r == wayback(url@),
{
    let u = chars_of(url);
    let a = chars_of("web.archive.org/");
    let b = chars_of("://archive.org/");
    contains_exec(&u, &a) || contains_exec(&u, &b)
}

/// Whether a URL without a PDF mimetype still looks like a direct PDF.
pub fn looks_like_pdf_url(url: &str) -> (r: bool)
    ensures
        r == pdf_looking(url@),
{
    let lower = to_lowercase(url);
    let l = chars_of(lower.as_str());
    let a = chars_of(".pdf");
    let b = chars_of(".pdf?");
    let c = chars_of("/pdf");
    ends_with_exec(&l, &a) || contains_exec(&l, &b) || contains_exec(&l, &c)
}

fn offer(slot: &mut Option<String>, url: &str)
    ensures
        opt_view(*final(slot)) == or_opt(opt_view(*old(slot)), Some(url@)),
{
    if slot.is_none() {
        *slot = Some(to_string(url));
    }
}

fn offer_entries(
    urls: &Vec<Json>,
    is_pdf: bool,
    s0: &mut Option<String>,
    s1: &mut Option<String>,
    s2: &mut Option<String>,
    s3: &mut Option<String>,
    Ghost(base): Ghost<Seq<(bool, Seq<char>)>>,
)
    requires
        opt_view(*old(s0)) == first_of_rank(base, 0),
        opt_view(*old(s1)) == first_of_rank(base, 1),
        opt_view(*old(s2)) == first_of_rank(base, 2),
        opt_view(*old(s3)) == first_of_rank(base, 3),
    ensures
        opt_view(*final(s0)) == first_of_rank(base + entry_candidates(urls@.map_values(|x: Json| x@), is_pdf), 0),
        opt_view(*final(s1)) == first_of_rank(base + entry_candidates(urls@.map_values(|x: Json| x@), is_pdf), 1),
        opt_view(*final(s2)) == first_of_rank(base + entry_candidates(urls@.map_values(|x: Json| x@), is_pdf), 2),
        opt_view(*final(s3)) == first_of_rank(base + entry_candidates(urls@.map_values(|x: Json| x@), is_pdf), 3),
{
    let ghost uv = urls@.map_values(|x: Json| x@);
    let mut j: usize = 0;
    assert(base + entry_candidates(uv.take(0), is_pdf) =~= base);
    while j < urls.len()
        invariant
            j <= urls@.len(),
            uv == urls@.map_values(|x: Json| x@),
            opt_view(*s0) == first_of_rank(base + entry_candidates(uv.take(j as int), is_pdf), 0),
            opt_view(*s1) == first_of_rank(base + entry_candidates(uv.take(j as int), is_pdf), 1),
            opt_view(*s2) == first_of_rank(base + entry_candidates(uv.take(j as int), is_pdf), 2),
            opt_view(*s3) == first_of_rank(base + entry_candidates(uv.take(j as int), is_pdf), 3),
        decreases urls.len() - j,
    {
        let ghost prev = base + entry_candidates(uv.take(j as int), is_pdf);
        proof {
            assert(uv.take(j + 1).drop_last() =~= uv.take(j as int));
            assert(uv.take(j + 1).last() == urls@[j as int]@);
        }
        let entry_url = urls[j].at("url");
        match entry_url.as_str() {
            Some(u) => {
                if !u.is_empty() {
                    proof {
                        let next = base + entry_candidates(uv.take(j + 1), is_pdf);
                        assert(next =~= prev.push((is_pdf, u@)));
                        assert(next.drop_last() =~= prev);
                    }
                    let archived = is_wayback(u);
                    if is_pdf {
                        if archived {
                            offer(s1, u);
                        } else {
                            offer(s0, u);
                        }
                    } else if looks_like_pdf_url(u) {
                        if archived {
                            offer(s3, u);
                        } else {
                            offer(s2, u);
                        }
                    }
                } else {
                    proof {
                        assert(base + entry_candidates(uv.take(j + 1), is_pdf) =~= prev);
                    }
                }
            },
            None => {
                proof {
                    assert(base + entry_candidates(uv.take(j + 1), is_pdf) =~= prev);
                }
            },
        }
        j += 1;
    }
    assert(uv.take(urls@.len() as int) =~= uv);
}

/// Chooses the best PDF URL of a release with expanded files.
pub fn select_pdf(release: &Json) -> (r: Option<String>)
    ensures
        opt_view(r) == best_pdf(release@),
{
    let files_v = release.at("files");
    let files = match files_v.as_array() {
        Some(f) => f,
        None => return None,
    };
    let ghost fv = files@.map_values(|x: Json| x@);
    let mut pdf_live: Option<String> = None;
    let mut pdf_archive: Option<String> = None;
    let mut any_live: Option<String> = None;
    let mut any_archive: Option<String> = None;
    let mut i: usize = 0;
    while i < files.len()
        invariant
            i <= files@.len(),
            fv == files@.map_values(|x: Json| x@),
            opt_view(pdf_live) == first_of_rank(candidates(fv.take(i as int)), 0),
            opt_view(pdf_archive) == first_of_rank(candidates(fv.take(i as int)), 1),
            opt_view(any_live) == first_of_rank(candidates(fv.take(i as int)), 2),
            opt_view(any_archive) == first_of_rank(candidates(fv.take(i as int)), 3),
        decreases files.len() - i,
    {
        let ghost base = candidates(fv.take(i as int));
        proof {
            assert(fv.take(i + 1).drop_last() =~= fv.take(i as int));
            assert(fv.take(i + 1).last() == files@[i as int]@);
        }
        let file = &files[i];
        let mime = file.at("mimetype");
        let is_pdf = match mime.as_str() {
            Some(m) => crate::text::str_eq(m, "application/pdf"),
            None => false,
        };
        proof {
            reveal_strlit("application/pdf");
        }
        assert(is_pdf == is_pdf_file(file@));
        let urls_v = file.at("urls");
        match urls_v.as_array() {
            Some(urls) => {
                offer_entries(
                    urls,
                    is_pdf,
                    &mut pdf_live,
                    &mut pdf_archive,
                    &mut any_live,
                    &mut any_archive,
                    Ghost(base),
                );
                proof {
                    let uv = urls@.map_values(|x: Json| x@);
                    assert(candidates(fv.take(i + 1)) =~= base + entry_candidates(uv, is_pdf));
                }
            },
            None => {
                proof {
                    assert(candidates(fv.take(i + 1)) =~= base);
                }
            },
        }
        i += 1;
    }
    assert(fv.take(files@.len() as int) =~= fv);
    match pdf_live {
        Some(u) => Some(u),
        None => match pdf_archive {
            Some(u) => Some(u),
            None => match any_live {
                Some(u) => Some(u),
                None => any_archive,
            },
        },
    }
}

impl Fatcat {
    pub fn new() -> Self {
        Fatcat
    }

    /// The release lookup for `doi`, with its files expanded.
    pub fn find_pdf_request(&self, doi: &str) -> (r: HttpGet)
        ensures
            r.url@ == lookup_url(doi@),
            r.headers@.len() == 1,
            r.headers@[0].0@ == "Accept"@,
            r.headers@[0].1@ == "application/json"@,
    {
        let lower = to_lowercase(doi);
        let mut url = to_string("https://api.fatcat.wiki/v0/release/lookup?doi=");
        let e = urlenc(lower.as_str());
        push_str(&mut url, e.as_str());
        push_str(&mut url, "&expand=files");
        let mut headers: Vec<(String, String)> = Vec::new();
        headers.push((to_string("Accept"), to_string("application/json")));
        HttpGet { url, headers }
    }

    /// Reads the answer to the lookup.
    pub fn find_pdf_reply(&self, reply: &Fetched<Json>) -> (r: Result<Option<String>, String>)
        ensures
            result_view(r) == reply_result(*reply),
    {
        match reply {
            Fetched::Body(v) => Ok(select_pdf(v)),
            Fetched::Unreadable(e) => Err(message("fatcat JSON parse failed: ", e.as_str())),
            Fetched::Status(code, e) => if *code == 404 || *code == 400 {
                Ok(None)
            } else {
                Err(message("fatcat request failed: ", e.as_str()))
            },
            Fetched::Transport(e) => Err(message("fatcat request failed: ", e.as_str())),
        }
    }

    /// Looks up a PDF for `doi`; `fetch` performs the request.
    pub fn find_pdf<F: FnOnce(HttpGet) -> Fetched<Json>>(&self, doi: &str, fetch: F) -> (r: Result<
        Option<String>,
        String,
    >)
        requires
            forall|g: HttpGet| fetch.requires((g,)),
        ensures
            exists|g: HttpGet, reply: Fetched<Json>|
                g.url@ == lookup_url(doi@) && fetch.ensures((g,), reply) && result_view(r)
                    == reply_result(reply),
    {
        let g = self.find_pdf_request(doi);
        let ghost gg = g;
        let reply = fetch(g);
        let r = self.find_pdf_reply(&reply);
        assert(gg.url@ == lookup_url(doi@) && fetch.ensures((gg,), reply) && result_view(r)
            == reply_result(reply));
        r
    }
}

/// Percent-encode a string for use in a URL query parameter value.
pub fn urlenc(s: &str) -> (r: String)
    ensures
        r@ == percent_encode(vstd::utf8::encode_utf8(s@), false),
{
    encode_query(s)
}

proof fn lemma_first_of_rank(c: Seq<(bool, Seq<char>)>, k: int)
    ensures
        first_of_rank(c, k) matches Some(u) ==> exists|i: int|
            0 <= i < c.len() && #[trigger] c[i].1 == u && rank(c[i]) == k,
        first_of_rank(c, k) is None ==> forall|i: int| 0 <= i < c.len() ==> rank(#[trigger] c[i]) != k,
    decreases c.len(),
{
    if c.len() > 0 {
        lemma_first_of_rank(c.drop_last(), k);
        if let Some(u) = first_of_rank(c.drop_last(), k) {
            let i = choose|i: int| 0 <= i < c.drop_last().len() && #[trigger] c.drop_last()[i].1 == u
                && rank(c.drop_last()[i]) == k;
            assert(c[i] == c.drop_last()[i]);
        }
        assert forall|i: int| 0 <= i < c.len() - 1 implies c[i] == c.drop_last()[i] by {}
    }
}

/// The chosen PDF is one of the release's URLs, and of the best rank it has:
/// no URL of a better rank was passed over (a live PDF before an archived
/// one, any PDF-mimetyped file before a URL that only looks like a PDF).
pub proof fn law_fatcat_choice(release: JsonV)
    ensures
        best_pdf(release) matches Some(u) ==> as_array(at(release, "files"@)) matches Some(files)
            && exists|i: int|
            0 <= i < candidates(files).len() && #[trigger] candidates(files)[i].1 == u && forall|
                j: int,
            |
                0 <= j < candidates(files).len() ==> rank(#[trigger] candidates(files)[j]) >= rank(
                    candidates(files)[i],
                ) || rank(candidates(files)[j]) == 4,
{
    if let Some(files) = as_array(at(release, "files"@)) {
        let c = candidates(files);
        lemma_first_of_rank(c, 0);
        lemma_first_of_rank(c, 1);
        lemma_first_of_rank(c, 2);
        lemma_first_of_rank(c, 3);
        assert forall|j: int| 0 <= j < c.len() implies 0 <= #[trigger] rank(c[j]) <= 4 by {}
    }
}

} // verus!
