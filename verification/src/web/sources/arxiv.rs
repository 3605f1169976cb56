//! arXiv: search and fetch through the Atom export API, parsed by scanning
//! the XML for the few tags a paper record needs.

use vstd::prelude::*;
use crate::http::{get_request, message, Fetched, HttpGet};
use crate::paper::{author_names, opt_view, Author, Paper};
use crate::text::{
    block_at, blocks_exec, blocks_from, chars_of, collapse_ws, collapse_ws_exec, find, find_exec,
    find_from, find_from_exec, lemma_find_from_spec, matches_at, push_all, push_str, rfind, rfind_exec,
    slice_vec, starts_with, starts_with_exec, string_of, string_of_range, to_string, trim,
    trim_range, decimal, u64_to_string,
};
use crate::urlenc::{encode_query, percent_encode};

verus! {

/// arXiv as a paper source.
pub struct ArXiv;

impl ArXiv {
    pub fn new() -> Self {
        ArXiv
    }

    pub fn name(&self) -> (r: &'static str)
        ensures
            r@ == "arxiv"@,
    {
        "arxiv"
    }

    /// The query for one identifier, given with or without an `arxiv:` /
    /// `arXiv:` prefix.
    pub fn fetch_id_request(&self, id: &str) -> (r: HttpGet)
        ensures
            r.url@ == id_url(bare_id(id@)),
            r.headers@.len() == 0,
    {
        let bare = strip_id_prefix(id);
        let mut url = to_string("https://export.arxiv.org/api/query?id_list=");
        let e = urlenc(bare.as_str());
        push_str(&mut url, e.as_str());
        push_str(&mut url, "&max_results=1");
        get_request(url)
    }

    /// Reads the answer to the identifier query: the first entry, parsed.
    pub fn fetch_id_reply(&self, id: &str, reply: &Fetched<String>) -> (r: Result<Paper, String>)
        ensures
            fetch_id_result(bare_id(id@), *reply, r),
    {
        match reply {
            Fetched::Body(body) => {
                let entries = split_entries(body.as_str());
                if entries.len() == 0 {
                    let bare = strip_id_prefix(id);
                    let mut m = to_string("arXiv: no entry found for id '");
                    push_str(&mut m, bare.as_str());
                    push_str(&mut m, "'");
                    Err(m)
                } else {
                    proof {
                        assert(entries@.map_values(|e: String| e@)[0] == entries@[0]@);
                    }
                    parse_single_entry(entries[0].as_str())
                }
            },
            Fetched::Unreadable(e) => Err(message("arXiv response read failed: ", e.as_str())),
            Fetched::Status(_, e) => Err(message("arXiv request failed: ", e.as_str())),
            Fetched::Transport(e) => Err(message("arXiv request failed: ", e.as_str())),
        }
    }

    /// Fetches one paper by arXiv identifier; `fetch` performs the request
    /// and reads the body as text.
    pub fn fetch_id<F: FnOnce(HttpGet) -> Fetched<String>>(&self, id: &str, fetch: F) -> (r: Result<
        Paper,
        String,
    >)
        requires
            forall|g: HttpGet| fetch.requires((g,)),
        ensures
            exists|g: HttpGet, reply: Fetched<String>|
                g.url@ == id_url(bare_id(id@)) && fetch.ensures((g,), reply) && fetch_id_result(
                    bare_id(id@),
                    reply,
                    r,
                ),
    {
        let g = self.fetch_id_request(id);
        let ghost gg = g;
        let reply = fetch(g);
        let r = self.fetch_id_reply(id, &reply);
        assert(gg.url@ == id_url(bare_id(id@)) && fetch.ensures((gg,), reply) && fetch_id_result(
            bare_id(id@),
            reply,
            r,
        ));
        r
    }

    /// The search query for `query`, at most 50 entries.
    pub fn search_request(&self, query: &str, limit: usize) -> (r: HttpGet)
        ensures
            r.url@ == query_url(query@, limit as int),
            r.headers@.len() == 0,
    {
        let capped: usize = if limit < 50 {
            limit
        } else {
            50
        };
        let mut url = to_string("https://export.arxiv.org/api/query?search_query=all:");
        let e = urlenc(query);
        push_str(&mut url, e.as_str());
        push_str(&mut url, "&max_results=");
        let n = u64_to_string(capped as u64);
        push_str(&mut url, n.as_str());
        get_request(url)
    }

    /// Reads the answer to a search: every entry with a title, in order;
    /// entries without one are skipped.
    pub fn search_reply(&self, reply: &Fetched<String>) -> (r: Result<Vec<Paper>, String>)
        ensures
            search_result(*reply, r),
    {
        match reply {
            Fetched::Body(body) => {
                let entries = split_entries(body.as_str());
                let ghost ev = entries@.map_values(|e: String| e@);
                let mut papers: Vec<Paper> = Vec::new();
                let mut i: usize = 0;
                while i < entries.len()
                    invariant
                        i <= entries@.len(),
                        ev == entries@.map_values(|e: String| e@),
                        papers@.len() == titled(ev.take(i as int)).len(),
                        forall|k: int|
                            0 <= k < papers@.len() ==> #[trigger] entry_paper_ok(
                                titled(ev.take(i as int))[k],
                                papers@[k],
                            ),
                    decreases entries.len() - i,
                {
                    proof {
                        assert(ev.take(i + 1).drop_last() =~= ev.take(i as int));
                        assert(ev.take(i + 1).last() == entries@[i as int]@);
                    }
                    match parse_single_entry(entries[i].as_str()) {
                        Ok(p) => {
                            papers.push(p);
                        },
                        Err(_) => {},
                    }
                    i += 1;
                }
                assert(ev.take(entries@.len() as int) =~= ev);
                Ok(papers)
            },
            Fetched::Unreadable(e) => Err(message("arXiv response read failed: ", e.as_str())),
            Fetched::Status(_, e) => Err(message("arXiv request failed: ", e.as_str())),
            Fetched::Transport(e) => Err(message("arXiv request failed: ", e.as_str())),
        }
    }

    /// Searches arXiv; `fetch` performs the request and reads the body as
    /// text.
    pub fn search<F: FnOnce(HttpGet) -> Fetched<String>>(&self, query: &str, limit: usize, fetch: F) -> (r:
        Result<Vec<Paper>, String>)
        requires
            forall|g: HttpGet| fetch.requires((g,)),
        ensures
            exists|g: HttpGet, reply: Fetched<String>|
                g.url@ == query_url(query@, limit as int) && fetch.ensures((g,), reply)
                    && search_result(reply, r),
    {
        let g = self.search_request(query, limit);
        let ghost gg = g;
        let reply = fetch(g);
        let r = self.search_reply(&reply);
        assert(gg.url@ == query_url(query@, limit as int) && fetch.ensures((gg,), reply)
            && search_result(reply, r));
        r
    }
}

/// An identifier without an `arxiv:` or `arXiv:` prefix.
pub open spec fn bare_id(id: Seq<char>) -> Seq<char> {
    if starts_with(id, "arxiv:"@) || starts_with(id, "arXiv:"@) {
        id.skip(6)
    } else {
        id
    }
}

/// The query URL for one identifier.
pub open spec fn id_url(id: Seq<char>) -> Seq<char> {
    "https://export.arxiv.org/api/query?id_list="@ + percent_encode(vstd::utf8::encode_utf8(id), false)
        + "&max_results=1"@
}

/// The search URL for a query, at most 50 entries.
pub open spec fn query_url(query: Seq<char>, limit: int) -> Seq<char> {
    let capped = if limit < 50 {
        limit
    } else {
        50
    };
    "https://export.arxiv.org/api/query?search_query=all:"@ + percent_encode(
        vstd::utf8::encode_utf8(query),
        false,
    ) + "&max_results="@ + decimal(capped as nat)
}

/// The entry blocks of an Atom body.
pub open spec fn entries_of(body: Seq<char>) -> Seq<Seq<char>> {
    blocks_from(body, "<entry>"@, "</entry>"@, 0)
}

/// The entries that carry a `<title>`, in order.
pub open spec fn titled(entries: Seq<Seq<char>>) -> Seq<Seq<char>>
    decreases entries.len(),
{
    if entries.len() == 0 {
        seq![]
    } else if tag_content(entries.last(), "title"@) is Some {
        titled(entries.drop_last()).push(entries.last())
    } else {
        titled(entries.drop_last())
    }
}

/// What fetching the identifier `id` yields from the reply.
pub open spec fn fetch_id_result(id: Seq<char>, reply: Fetched<String>, r: Result<Paper, String>) -> bool {
    match reply {
        Fetched::Body(body) => {
            let entries = entries_of(body@);
            if entries.len() == 0 {
                r matches Err(e) && e@ == "arXiv: no entry found for id '"@ + id + "'"@
            } else {
                match r {
                    Ok(p) => tag_content(entries[0], "title"@) is Some && entry_paper_ok(entries[0], p),
                    Err(e) => tag_content(entries[0], "title"@) is None && e@
                        == "arXiv entry missing <title>"@,
                }
            }
        },
        Fetched::Unreadable(e) => r matches Err(m) && m@ == "arXiv response read failed: "@ + e@,
        Fetched::Status(_, e) => r matches Err(m) && m@ == "arXiv request failed: "@ + e@,
        Fetched::Transport(e) => r matches Err(m) && m@ == "arXiv request failed: "@ + e@,
    }
}

/// What a search yields from the reply.
pub open spec fn search_result(reply: Fetched<String>, r: Result<Vec<Paper>, String>) -> bool {
    match reply {
        Fetched::Body(body) => {
            let t = titled(entries_of(body@));
            r matches Ok(papers) && papers@.len() == t.len() && forall|k: int|
                0 <= k < t.len() ==> #[trigger] entry_paper_ok(t[k], papers@[k])
        },
        Fetched::Unreadable(e) => r matches Err(m) && m@ == "arXiv response read failed: "@ + e@,
        Fetched::Status(_, e) => r matches Err(m) && m@ == "arXiv request failed: "@ + e@,
        Fetched::Transport(e) => r matches Err(m) && m@ == "arXiv request failed: "@ + e@,
    }
}

fn strip_id_prefix(id: &str) -> (r: String)
    ensures
        r@ == bare_id(id@),
{
    let v = chars_of(id);
    let a = chars_of("arxiv:");
    let b = chars_of("arXiv:");
    proof {
        reveal_strlit("arxiv:");
        reveal_strlit("arXiv:");
    }
    if starts_with_exec(&v, &a) || starts_with_exec(&v, &b) {
        assert(v@.skip(6) =~= v@.subrange(6, v@.len() as int));
        string_of_range(&v, 6, v.len())
    } else {
        to_string(id)
    }
}

pub open spec fn open_tag(tag: Seq<char>) -> Seq<char> {
    seq!['<'] + tag
}

pub open spec fn close_tag(tag: Seq<char>) -> Seq<char> {
    seq!['<', '/'] + tag + seq!['>']
}

/// The trimmed text of the first `<tag ...>...</tag>` element of `xml`; `None`
/// when the element is missing, unclosed, or holds only whitespace.
pub open spec fn tag_content(xml: Seq<char>, tag: Seq<char>) -> Option<Seq<char>> {
    match find(xml, open_tag(tag)) {
        None => None,
        Some(sp) => match find_from(xml, seq!['>'], sp + open_tag(tag).len()) {
            None => None,
            Some(gt) => match find_from(xml, close_tag(tag), gt + 1) {
                None => None,
                Some(cp) => {
                    let t = trim(xml.subrange(gt + 1, cp));
                    if t.len() == 0 {
                        None
                    } else {
                        Some(t)
                    }
                },
            },
        },
    }
}

fn tag_content_exec(xml: &Vec<char>, tag: &str) -> (r: Option<String>)
    ensures
        opt_view(r) == tag_content(xml@, tag@),
{
    let t = chars_of(tag);
    let mut open: Vec<char> = Vec::new();
    open.push('<');
    let mut k: usize = 0;
    while k < t.len()
        invariant
            k <= t@.len(),
            open@ == seq!['<'] + t@.take(k as int),
        decreases t.len() - k,
    {
        open.push(t[k]);
        k += 1;
        assert(open@ =~= seq!['<'] + t@.take(k as int));
    }
    assert(t@.take(t@.len() as int) =~= t@);
    let mut close: Vec<char> = Vec::new();
    close.push('<');
    close.push('/');
    k = 0;
    while k < t.len()
        invariant
            k <= t@.len(),
            close@ == seq!['<', '/'] + t@.take(k as int),
        decreases t.len() - k,
    {
        close.push(t[k]);
        k += 1;
        assert(close@ =~= seq!['<', '/'] + t@.take(k as int));
    }
    close.push('>');
    assert(open@ =~= open_tag(tag@));
    assert(close@ =~= close_tag(tag@));
    let mut gt_pat: Vec<char> = Vec::new();
    gt_pat.push('>');
    assert(gt_pat@ =~= seq!['>']);
    let sp = match find_exec(xml, &open) {
        Some(i) => i,
        None => return None,
    };
    proof {
        lemma_find_from_spec(xml@, open@, 0);
    }
    let after = sp + open.len();
    let gt = match find_from_exec(xml, &gt_pat, after) {
        Some(i) => i,
        None => return None,
    };
    proof {
        lemma_find_from_spec(xml@, gt_pat@, after as int);
    }
    let cs = gt + 1;
    let cp = match find_from_exec(xml, &close, cs) {
        Some(i) => i,
        None => return None,
    };
    proof {
        lemma_find_from_spec(xml@, close@, cs as int);
    }
    let trimmed = trim_range(xml, cs, cp);
    if trimmed.as_str().is_empty() {
        None
    } else {
        Some(trimmed)
    }
}

/// Extracts the text content of a simple XML tag; the opening tag may carry
/// attributes (`<title type="html">`).
pub fn extract_tag(xml: &str, tag: &str) -> (r: Option<String>)
    ensures
        opt_view(r) == tag_content(xml@, tag@),
{
    let x = chars_of(xml);
    tag_content_exec(&x, tag)
}

/// Splits the Atom XML body into its `<entry>...</entry>` blocks.
pub fn split_entries(xml: &str) -> (r: Vec<String>)
    ensures
        r@.map_values(|e: String| e@) == blocks_from(xml@, "<entry>"@, "</entry>"@, 0),
{
    let x = chars_of(xml);
    let open = chars_of("<entry>");
    let close = chars_of("</entry>");
    proof {
        reveal_strlit("</entry>");
    }
    let blocks = blocks_exec(&x, &open, &close);
    let mut out: Vec<String> = Vec::new();
    let mut i: usize = 0;
    while i < blocks.len()
        invariant
            i <= blocks@.len(),
            out@.len() == i,
            forall|j: int| 0 <= j < i ==> (#[trigger] out@[j])@ == blocks@[j]@,
        decreases blocks.len() - i,
    {
        out.push(string_of(&blocks[i]));
        i += 1;
    }
    assert(out@.map_values(|e: String| e@) =~= blocks@.map_values(|b: Vec<char>| b@));
    out
}

/// The names found in the author blocks, skipping blocks without a name.
pub open spec fn names_in(blocks: Seq<Seq<char>>) -> Seq<Seq<char>>
    decreases blocks.len(),
{
    if blocks.len() == 0 {
        seq![]
    } else {
        let rest = names_in(blocks.drop_last());
        match tag_content(blocks.last(), "name"@) {
            Some(n) => rest.push(n),
            None => rest,
        }
    }
}

/// The author names of an entry, each from `<author><name>...</name></author>`.
pub open spec fn entry_authors(entry: Seq<char>) -> Seq<Seq<char>> {
    names_in(blocks_from(entry, "<author>"@, "</author>"@, 0))
}

/// Extracts all author names from an entry.
pub fn extract_authors(entry: &str) -> (r: Vec<Author>)
    ensures
        author_names(r@) == entry_authors(entry@),
{
    let x = chars_of(entry);
    let open = chars_of("<author>");
    let close = chars_of("</author>");
    proof {
        reveal_strlit("</author>");
    }
    let blocks = blocks_exec(&x, &open, &close);
    let ghost bv = blocks@.map_values(|b: Vec<char>| b@);
    let mut authors: Vec<Author> = Vec::new();
    let mut i: usize = 0;
    while i < blocks.len()
        invariant
            i <= blocks@.len(),
            bv == blocks@.map_values(|b: Vec<char>| b@),
            author_names(authors@) == names_in(bv.take(i as int)),
        decreases blocks.len() - i,
    {
        let name = tag_content_exec(&blocks[i], "name");
        proof {
            assert(bv.take(i + 1).drop_last() =~= bv.take(i as int));
            assert(bv.take(i + 1).last() == blocks@[i as int]@);
        }
        match name {
            Some(n) => {
                let ghost before = authors@;
                authors.push(Author { name: n });
                assert(author_names(authors@) =~= author_names(before).push(n@));
            },
            None => {},
        }
        i += 1;
    }
    assert(bv.take(blocks@.len() as int) =~= bv);
    authors
}

/// The arXiv identifier of an entry: its `<id>` URL after the last `/abs/`,
/// else after the last `/`, else the whole text.
pub open spec fn entry_arxiv_id(entry: Seq<char>) -> Option<Seq<char>> {
    match tag_content(entry, "id"@) {
        None => None,
        Some(u) => match rfind(u, "/abs/"@) {
            Some(p) => Some(u.skip(p + "/abs/"@.len())),
            None => match rfind(u, seq!['/']) {
                Some(p) => Some(u.skip(p + 1)),
                None => Some(u),
            },
        },
    }
}

/// Extracts the arXiv ID from the `<id>` tag, e.g. `2301.12345v1` from
/// `http://arxiv.org/abs/2301.12345v1`.
pub fn extract_arxiv_id(entry: &str) -> (r: Option<String>)
    ensures
        opt_view(r) == entry_arxiv_id(entry@),
{
    let x = chars_of(entry);
    let id_url = match tag_content_exec(&x, "id") {
        Some(u) => u,
        None => return None,
    };
    let u = chars_of(id_url.as_str());
    let abs = chars_of("/abs/");
    match rfind_exec(&u, &abs) {
        Some(p) => {
            proof {
                crate::text::lemma_rfind_upto_spec(u@, abs@, u@.len() - abs@.len());
            }
            let from = p + abs.len();
            assert(u@.skip(from as int) =~= u@.subrange(from as int, u@.len() as int));
            return Some(string_of_range(&u, from, u.len()));
        },
        None => {},
    }
    let mut slash: Vec<char> = Vec::new();
    slash.push('/');
    assert(slash@ =~= seq!['/']);
    match rfind_exec(&u, &slash) {
        Some(p) => {
            proof {
                crate::text::lemma_rfind_upto_spec(u@, slash@, u@.len() - 1);
            }
            assert(u@.skip(p + 1) =~= u@.subrange(p + 1, u@.len() as int));
            Some(string_of_range(&u, p + 1, u.len()))
        },
        None => Some(id_url),
    }
}

/// A publication timestamp cut at its first `T` (`2023-01-15T12:00:00Z`
/// gives `2023-01-15`).
pub open spec fn date_part(d: Seq<char>) -> Seq<char> {
    match find(d, seq!['T']) {
        Some(i) => d.take(i),
        None => d,
    }
}

fn date_part_exec(d: &str) -> (r: String)
    ensures
        r@ == date_part(d@),
{
    let v = chars_of(d);
    let mut t: Vec<char> = Vec::new();
    t.push('T');
    assert(t@ =~= seq!['T']);
    match find_exec(&v, &t) {
        Some(i) => {
            proof {
                lemma_find_from_spec(v@, t@, 0);
            }
            assert(v@.take(i as int) =~= v@.subrange(0, i as int));
            string_of_range(&v, 0, i)
        },
        None => string_of(&v),
    }
}

pub open spec fn opt_collapse(o: Option<Seq<char>>) -> Option<Seq<char>> {
    match o {
        Some(s) => Some(collapse_ws(s)),
        None => None,
    }
}

pub open spec fn opt_date(o: Option<Seq<char>>) -> Option<Seq<char>> {
    match o {
        Some(s) => Some(date_part(s)),
        None => None,
    }
}

pub open spec fn opt_prefixed(prefix: Seq<char>, o: Option<Seq<char>>) -> Option<Seq<char>> {
    match o {
        Some(s) => Some(prefix + s),
        None => None,
    }
}

/// The paper an `<entry>` block describes; requires a `<title>`.
pub open spec fn entry_paper_ok(entry: Seq<char>, p: Paper) -> bool {
    let id = entry_arxiv_id(entry);
    &&& p.title@ == collapse_ws(tag_content(entry, "title"@).unwrap())
    &&& author_names(p.authors@) == entry_authors(entry)
    &&& opt_view(p.abstract_text) == opt_collapse(tag_content(entry, "summary"@))
    &&& opt_view(p.date) == opt_date(tag_content(entry, "published"@))
    &&& opt_view(p.arxiv_id) == id
    &&& opt_view(p.pdf_url) == opt_prefixed("https://arxiv.org/pdf/"@, id)
    &&& opt_view(p.url) == opt_prefixed("https://arxiv.org/abs/"@, id)
    &&& opt_view(p.source) == Some("arxiv"@)
    &&& p.doi is None
    &&& p.publication is None
    &&& p.volume is None
    &&& p.pages is None
    &&& p.cited_by_count is None
}

fn prefixed(prefix: &str, s: &String) -> (r: String)
    ensures
        r@ == prefix@ + s@,
{
    let mut out = String::new();
    push_str(&mut out, prefix);
    push_str(&mut out, s.as_str());
    assert(out@ =~= prefix@ + s@);
    out
}

/// Law: an entry's links are made from its arXiv id: the PDF is
/// `https://arxiv.org/pdf/<id>` and the page `https://arxiv.org/abs/<id>`,
/// and there are none without an id; the paper comes from `arxiv`.
pub proof fn law_arxiv_links_follow_the_id(entry: Seq<char>, p: Paper)
    requires
        entry_paper_ok(entry, p),
    ensures
        p.arxiv_id is None ==> p.pdf_url is None && p.url is None,
        p.arxiv_id matches Some(id) ==> opt_view(p.pdf_url) == Some("https://arxiv.org/pdf/"@ + id@)
            && opt_view(p.url) == Some("https://arxiv.org/abs/"@ + id@),
        opt_view(p.source) == Some("arxiv"@),
{
}

/// Law: an entry's paper is dated by its `<published>` text up to the first
/// `T` (all of it when there is none), and has no date without one; the
/// `<updated>` element plays no part: two entries with the same `<published>`
/// text get the same date.
pub proof fn law_arxiv_date_from_published(e1: Seq<char>, p1: Paper, e2: Seq<char>, p2: Paper)
    requires
        entry_paper_ok(e1, p1),
        entry_paper_ok(e2, p2),
    ensures
        tag_content(e1, "published"@) is None ==> p1.date is None,
        tag_content(e1, "published"@) matches Some(d) ==> exists|k: int|
            #![trigger d.take(k)]
            0 <= k <= d.len() && opt_view(p1.date) == Some(d.take(k)) && (k == d.len() || d[k] == 'T')
                && forall|j: int| 0 <= j < k ==> #[trigger] d[j] != 'T',
        tag_content(e1, "published"@) == tag_content(e2, "published"@) ==> opt_view(p1.date) == opt_view(
            p2.date,
        ),
{
    match tag_content(e1, "published"@) {
        None => {},
        Some(d) => {
            let t = seq!['T'];
            lemma_find_from_spec(d, t, 0);
            assert forall|j: int| 0 <= j < d.len() implies (matches_at(d, t, j) <==> d[j] == 'T') by {
                if j + 1 <= d.len() {
                    if d[j] == 'T' {
                        assert(d.subrange(j, j + 1) =~= t);
                    }
                    if matches_at(d, t, j) {
                        assert(d.subrange(j, j + 1)[0] == d[j]);
                    }
                }
            }
            match find(d, t) {
                Some(i) => {
                    assert(d.subrange(i, i + 1)[0] == d[i]);
                    assert(opt_view(p1.date) == Some(d.take(i)));
                    assert(forall|j: int| 0 <= j < i ==> #[trigger] d[j] != 'T');
                    assert(0 <= i <= d.len() && opt_view(p1.date) == Some(d.take(i)) && (i == d.len()
                        || d[i] == 'T'));
                },
                None => {
                    assert(d.take(d.len() as int) =~= d);
                    assert(forall|j: int| 0 <= j < d.len() ==> #[trigger] d[j] != 'T');
                    let k = d.len() as int;
                    assert(opt_view(p1.date) == Some(d.take(k)));
                },
            }
        },
    }
}

/// Parses a single `<entry>` block into a paper. Titles and abstracts have
/// their internal runs of whitespace (arXiv wraps lines) collapsed to one
/// space.
pub fn parse_single_entry(entry: &str) -> (r: Result<Paper, String>)
    ensures
        r is Ok <==> tag_content(entry@, "title"@) is Some,
        r matches Ok(p) ==> entry_paper_ok(entry@, p),
        r matches Err(e) ==> e@ == "arXiv entry missing <title>"@,
{
    let x = chars_of(entry);
    let raw_title = match tag_content_exec(&x, "title") {
        Some(t) => t,
        None => return Err(to_string("arXiv entry missing <title>")),
    };
    let title = collapse_ws_exec(&chars_of(raw_title.as_str()));
    let authors = extract_authors(entry);
    let abstract_text = match tag_content_exec(&x, "summary") {
        Some(s) => Some(collapse_ws_exec(&chars_of(s.as_str()))),
        None => None,
    };
    let date = match tag_content_exec(&x, "published") {
        Some(d) => Some(date_part_exec(d.as_str())),
        None => None,
    };
    let arxiv_id = extract_arxiv_id(entry);
    let pdf_url = match &arxiv_id {
        Some(id) => Some(prefixed("https://arxiv.org/pdf/", id)),
        None => None,
    };
    let url = match &arxiv_id {
        Some(id) => Some(prefixed("https://arxiv.org/abs/", id)),
        None => None,
    };
    Ok(
        Paper {
            title,
            authors,
            doi: None,
            abstract_text,
            date,
            publication: None,
            volume: None,
            pages: None,
            url,
            pdf_url,
            arxiv_id,
            source: Some(to_string("arxiv")),
            cited_by_count: None,
        },
    )
}

/// Percent-encode a string for use in URL query parameters.
pub fn urlenc(s: &str) -> (r: String)
    ensures
        r@ == percent_encode(vstd::utf8::encode_utf8(s@), false),
{
    encode_query(s)
}

} // verus!
