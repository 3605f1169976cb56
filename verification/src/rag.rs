//! Retrieval helpers: rerank settings, mapping reranked results back onto
//! candidates, sidecar file names and the RAG store's location.

use vstd::prelude::*;
use crate::cli::{called, replied, Exchange, RpcCaller};
use crate::web::{raw_setting_params, raw_setting_request};
use crate::json::{
    as_str, at, compact_json, get, json_parse, json_text, members_view, obj2, object_of, parse_json,
    push_member, str_values, Json, JsonNumber, JsonV, NumberV,
};
use crate::output::{format_json, json_output, list_envelope, normalize_list_envelope};
use crate::paper::opt_view;
use crate::text::{
    chars_of, digits_value, is_digit, parse_int, push_str, sign_split, str_eq, to_lowercase,
    to_string, trim, trim_exec, unicode_lower,
};

verus! {

// ---------------------------------------------------------------------------
// Rerank settings.
// ---------------------------------------------------------------------------

/// The reranker to use and how many candidates to send it.
#[derive(Debug)]
pub struct RerankSettings {
    pub provider: String,
    pub model: String,
    pub api_url: String,
    pub api_key: String,
    pub candidate_count: usize,
}

/// A rerank provider's defaults.
#[derive(Debug)]
pub struct RerankProviderDefaults {
    pub id: String,
    pub default_url: String,
    pub default_model: String,
}

/// What `s.parse::<usize>()` gives: the number when `s` writes one in range
/// (an optional `+`, then decimal digits).
pub open spec fn parsed_usize(s: Seq<char>) -> Option<usize> {
    if s.len() > 0 && s[0] == '-' {
        None
    } else {
        match parse_int(s) {
            Some(v) => if 0 <= v <= usize::MAX {
                Some(v as usize)
            } else {
                None
            },
            None => None,
        }
    }
}

proof fn lemma_digits_value_nonneg(d: Seq<char>)
    requires
        forall|i: int| 0 <= i < d.len() ==> is_digit(#[trigger] d[i]),
    ensures
        digits_value(d) >= 0,
    decreases d.len(),
{
    if d.len() > 0 {
        assert(is_digit(d[d.len() - 1]));
        lemma_digits_value_nonneg(d.drop_last());
    }
}

/// Parses an unsigned integer as `str::parse::<usize>` does.
pub fn parse_usize(s: &str) -> (r: Option<usize>)
    ensures
        r == parsed_usize(s@),
{
    let v = chars_of(s);
    if v.len() > 0 && v[0] == '-' {
        return None;
    }
    let start: usize = if v.len() > 0 && v[0] == '+' {
        1
    } else {
        0
    };
    let ghost d = sign_split(v@).1;
    assert(d =~= v@.skip(start as int));
    assert(!sign_split(v@).0);
    if start == v.len() {
        return None;
    }
    let mut acc: usize = 0;
    let mut big = false;
    let mut i = start;
    while i < v.len()
        invariant
            start <= i <= v@.len(),
            v@ == s@,
            !(v@.len() > 0 && v@[0] == '-'),
            d == sign_split(v@).1,
            d == v@.skip(start as int),
            forall|k: int| 0 <= k < i - start ==> is_digit(#[trigger] d[k]),
            big ==> digits_value(d.take(i - start)) > usize::MAX,
            !big ==> acc == digits_value(d.take(i - start)),
        decreases v.len() - i,
    {
        let c = v[i];
        assert(d[i - start] == c);
        if !('0' <= c && c <= '9') {
            assert(!is_digit(d[i - start]));
            return None;
        }
        let dgt = (c as u32 - 48) as usize;
        assert(d.take(i - start + 1).drop_last() =~= d.take(i - start));
        assert(d.take(i - start + 1).last() == c);
        if !big {
            if acc > (usize::MAX - dgt) / 10 {
                assert(10 * acc + dgt > usize::MAX) by (nonlinear_arith)
                    requires
                        acc > (usize::MAX - dgt) / 10,
                        dgt <= 9,
                ;
                big = true;
            } else {
                assert(10 * acc + dgt <= usize::MAX) by (nonlinear_arith)
                    requires
                        acc <= (usize::MAX - dgt) / 10,
                        dgt <= 9,
                ;
                acc = acc * 10 + dgt;
            }
        } else {
            proof {
                lemma_digits_value_nonneg(d.take(i - start));
            }
        }
        i += 1;
    }
    assert(d.take(v@.len() - start) =~= d);
    if big {
        None
    } else {
        Some(acc)
    }
}

/// A string setting, or the empty text.
pub open spec fn setting_str(settings: JsonV, key: Seq<char>) -> Seq<char> {
    match get(settings, key) {
        Some(v) => match as_str(v) {
            Some(s) => s,
            None => Seq::empty(),
        },
        None => Seq::empty(),
    }
}

/// The first defaults entry for a provider id.
pub open spec fn defaults_for(table: Seq<RerankProviderDefaults>, id: Seq<char>) -> Option<
    RerankProviderDefaults,
>
    decreases table.len(),
{
    if table.len() == 0 {
        None
    } else if table[0].id@ == id {
        Some(table[0])
    } else {
        defaults_for(table.drop_first(), id)
    }
}

/// The rerank settings read from `settings.getAll` and the raw API key:
/// provider, model and URL as configured, an empty model or URL filled from
/// the provider's defaults, and a candidate count of 30 unless a valid one is
/// configured.
pub open spec fn rerank_settings_ok(
    settings: JsonV,
    raw: JsonV,
    table: Seq<RerankProviderDefaults>,
    r: RerankSettings,
) -> bool {
    let provider = setting_str(settings, "rerank.provider"@);
    let model = setting_str(settings, "rerank.model"@);
    let url = setting_str(settings, "rerank.apiUrl"@);
    let spec = defaults_for(table, provider);
    &&& r.provider@ == provider
    &&& r.api_key@ == setting_str(raw, "rerank.apiKey"@)
    &&& r.api_url@ == if url.len() == 0 {
        match spec {
            Some(d) => d.default_url@,
            None => Seq::empty(),
        }
    } else {
        url
    }
    &&& r.model@ == if model.len() == 0 {
        match spec {
            Some(d) => d.default_model@,
            None => Seq::empty(),
        }
    } else {
        model
    }
    &&& r.candidate_count == match get(settings, "rerank.candidateCount"@) {
        Some(v) => match as_str(v) {
            Some(s) => match parsed_usize(s) {
                Some(n) => n,
                None => 30,
            },
            None => 30,
        },
        None => 30,
    }
}

fn setting_string(settings: &Json, key: &str) -> (r: String)
    ensures
        r@ == setting_str(settings@, key@),
{
    match settings.get(key) {
        Some(v) => match v.as_str() {
            Some(s) => to_string(s),
            None => String::new(),
        },
        None => String::new(),
    }
}

/// Builds the rerank settings from the replies of `settings.getAll` and of
/// `settings.getRaw` for the API key (see `rerank_settings_ok`).
pub fn rerank_settings_from(
    settings: &Json,
    raw: &Json,
    table: &Vec<RerankProviderDefaults>,
) -> (r: RerankSettings)
    ensures
        rerank_settings_ok(settings@, raw@, table@, r),
{
    let provider = setting_string(settings, "rerank.provider");
    let model = setting_string(settings, "rerank.model");
    let api_url = setting_string(settings, "rerank.apiUrl");
    let candidate_count = match settings.get("rerank.candidateCount") {
        Some(v) => match v.as_str() {
            Some(s) => match parse_usize(s) {
                Some(n) => n,
                None => 30,
            },
            None => 30,
        },
        None => 30,
    };
    let api_key = setting_string(raw, "rerank.apiKey");
    let mut i: usize = 0;
    assert(table@.skip(0) =~= table@);
    while i < table.len() && !str_eq(table[i].id.as_str(), provider.as_str())
        invariant
            i <= table@.len(),
            defaults_for(table@, provider@) == defaults_for(table@.skip(i as int), provider@),
        decreases table.len() - i,
    {
        assert(table@.skip(i as int).drop_first() =~= table@.skip(i + 1));
        i += 1;
    }
    let found: Option<usize> = if i < table.len() {
        assert(table@.skip(i as int)[0] == table@[i as int]);
        Some(i)
    } else {
        assert(table@.skip(i as int).len() == 0);
        None
    };
    let api_url = if api_url.as_str().is_empty() {
        match found {
            Some(k) => to_string(table[k].default_url.as_str()),
            None => String::new(),
        }
    } else {
        api_url
    };
    let model = if model.as_str().is_empty() {
        match found {
            Some(k) => to_string(table[k].default_model.as_str()),
            None => String::new(),
        }
    } else {
        model
    };
    RerankSettings { provider, model, api_url, api_key, candidate_count }
}

/// What reading the rerank settings gives, after its calls: `settings.getAll`,
/// then (when that answered) `settings.getRaw` for the API key.
pub open spec fn rerank_fetched(
    before: Seq<Exchange>,
    after: Seq<Exchange>,
    table: Seq<RerankProviderDefaults>,
    r: Result<RerankSettings, String>,
) -> bool {
    let first = if after.len() > before.len() {
        after[before.len() as int]
    } else {
        after.last()
    };
    match first.reply {
        Err(e) => called(before, after, "settings.getAll"@, None) && (r matches Err(m) && m@ == e),
        Ok(settings) => {
            let mid = after.drop_last();
            &&& called(before, mid, "settings.getAll"@, None)
            &&& called(mid, after, "settings.getRaw"@, Some(raw_setting_params("rerank.apiKey"@)))
            &&& match replied(after) {
                Err(e) => r matches Err(m) && m@ == e,
                Ok(raw) => r matches Ok(s) && rerank_settings_ok(settings, raw, table, s),
            }
        },
    }
}

/// Reads the rerank settings from Zotero: all settings, then the raw API key.
/// A failed call is returned as its error.
pub fn fetch_rerank_settings<C: RpcCaller>(client: &mut C, table: &Vec<RerankProviderDefaults>) -> (r:
    Result<RerankSettings, String>)
    ensures
        rerank_fetched(old(client).exchanges(), final(client).exchanges(), table@, r),
{
    let reply = client.call("settings.getAll", None);
    assert(client.exchanges().drop_last() =~= old(client).exchanges());
    let settings = match reply {
        Ok(v) => v,
        Err(e) => return Err(e),
    };
    let ghost mid = client.exchanges();
    let raw = match client.call("settings.getRaw", Some(raw_setting_request("rerank.apiKey"))) {
        Ok(v) => v,
        Err(e) => {
            assert(client.exchanges().drop_last() =~= mid);
            return Err(e);
        },
    };
    assert(client.exchanges().drop_last() =~= mid);
    let s = rerank_settings_from(&settings, &raw, table);
    Ok(s)
}

// ---------------------------------------------------------------------------
// Reranked results.
// ---------------------------------------------------------------------------

/// A reranker's verdict on one document: its index in the request, and its
/// score.
#[derive(Debug, Clone, Copy)]
pub struct RerankResult<S> {
    pub index: usize,
    pub score: S,
}

/// The reranked results mapped onto the candidates they point at, in the
/// reranker's order; results whose index is out of range are dropped.
pub open spec fn mapped<S>(reranked: Seq<RerankResult<S>>, candidates: Seq<(usize, S)>) -> Seq<(usize, S)>
    decreases reranked.len(),
{
    if reranked.len() == 0 {
        seq![]
    } else {
        let rest = mapped(reranked.drop_last(), candidates);
        let x = reranked.last();
        if x.index < candidates.len() {
            rest.push((candidates[x.index as int].0, x.score))
        } else {
            rest
        }
    }
}

/// Maps reranker results back onto the original candidates (see `mapped`). A
/// provider may return an out-of-range index; such a result is dropped
/// rather than trusted.
pub fn map_reranked_to_candidates<S: Copy>(
    reranked: Vec<RerankResult<S>>,
    candidates: &Vec<(usize, S)>,
) -> (r: Vec<(usize, S)>)
    ensures
        r@ == mapped(reranked@, candidates@),
{
    let mut out: Vec<(usize, S)> = Vec::new();
    let mut i: usize = 0;
    while i < reranked.len()
        invariant
            i <= reranked@.len(),
            out@ == mapped(reranked@.take(i as int), candidates@),
        decreases reranked.len() - i,
    {
        assert(reranked@.take(i + 1).drop_last() =~= reranked@.take(i as int));
        let x = reranked[i];
        if x.index < candidates.len() {
            let c = candidates[x.index];
            out.push((c.0, x.score));
        }
        i += 1;
    }
    assert(reranked@.take(reranked@.len() as int) =~= reranked@);
    out
}

// ---------------------------------------------------------------------------
// Sidecar and store locations.
// ---------------------------------------------------------------------------

/// `s` with every `/` replaced by `-`.
pub open spec fn dashed(s: Seq<char>) -> Seq<char> {
    s.map_values(|c: char| if c == '/' { '-' } else { c })
}

/// The vector file for a provider and model: both trimmed, lower-cased and
/// with `/` made `-`, joined by `--`; `vectors.jsonl` when both are empty.
pub open spec fn vector_file(provider: Seq<char>, model: Seq<char>) -> Seq<char> {
    let p = dashed(unicode_lower(trim(provider)));
    let m = dashed(unicode_lower(trim(model)));
    if p.len() == 0 && m.len() == 0 {
        "vectors.jsonl"@
    } else {
        p + "--"@ + m + ".jsonl"@
    }
}

fn dashed_exec(s: &str) -> (r: String)
    ensures
        r@ == dashed(s@),
{
    let v = chars_of(s);
    let mut out = String::new();
    let mut i: usize = 0;
    while i < v.len()
        invariant
            i <= v@.len(),
            out@ == dashed(v@.take(i as int)),
        decreases v.len() - i,
    {
        let c = if v[i] == '/' {
            '-'
        } else {
            v[i]
        };
        out.push(c);
        assert(dashed(v@.take(i + 1)) =~= dashed(v@.take(i as int)).push(c));
        i += 1;
    }
    assert(v@.take(v@.len() as int) =~= v@);
    out
}

/// The name of the vector file for a provider and model (see `vector_file`).
pub fn embedding_vector_filename(provider: &str, model: &str) -> (r: String)
    ensures
        r@ == vector_file(provider@, model@),
{
    let pt = trim_exec(provider);
    let pl = to_lowercase(pt.as_str());
    let p = dashed_exec(pl.as_str());
    let mt = trim_exec(model);
    let ml = to_lowercase(mt.as_str());
    let m = dashed_exec(ml.as_str());
    if p.as_str().is_empty() && m.as_str().is_empty() {
        return to_string("vectors.jsonl");
    }
    let mut out = to_string(p.as_str());
    push_str(&mut out, "--");
    push_str(&mut out, m.as_str());
    push_str(&mut out, ".jsonl");
    out
}

/// Whether `std::path::Path` holds two paths equal (component by component).
pub uninterp spec fn same_path(a: Seq<char>, b: Seq<char>) -> bool;

/// `Path::new(a) == Path::new(b)`. Taken to depend on the two texts alone;
/// the component rules are not restated here.
#[verifier::external_body]
fn paths_equal(a: &str, b: &str) -> (r: bool)
    ensures
        r == same_path(a@, b@),
{
    std::path::Path::new(a) == std::path::Path::new(b)
}

/// The paths with later duplicates (equal as paths) dropped, first
/// occurrences kept in order.
pub open spec fn unique_in(paths: Seq<Seq<char>>) -> Seq<Seq<char>>
    decreases paths.len(),
{
    if paths.len() == 0 {
        seq![]
    } else {
        let kept = unique_in(paths.drop_last());
        if exists|i: int| 0 <= i < kept.len() && same_path(#[trigger] kept[i], paths.last()) {
            kept
        } else {
            kept.push(paths.last())
        }
    }
}

/// Drops repeated paths, keeping the first of each (see `unique_in`).
pub fn unique_paths(paths: Vec<String>) -> (r: Vec<String>)
    ensures
        r@.map_values(|p: String| p@) == unique_in(paths@.map_values(|p: String| p@)),
{
    let ghost pv = paths@.map_values(|p: String| p@);
    let mut unique: Vec<String> = Vec::new();
    let mut i: usize = 0;
    while i < paths.len()
        invariant
            i <= paths@.len(),
            pv == paths@.map_values(|p: String| p@),
            unique@.map_values(|p: String| p@) == unique_in(pv.take(i as int)),
        decreases paths.len() - i,
    {
        let ghost kept = unique@.map_values(|p: String| p@);
        proof {
            assert(pv.take(i + 1).drop_last() =~= pv.take(i as int));
            assert(pv.take(i + 1).last() == paths@[i as int]@);
        }
        let mut seen = false;
        let mut k: usize = 0;
        while k < unique.len()
            invariant
                k <= unique@.len(),
                i < paths@.len(),
                kept == unique@.map_values(|p: String| p@),
                seen <==> exists|j: int| 0 <= j < k && same_path(#[trigger] kept[j], paths@[i as int]@),
            decreases unique.len() - k,
        {
            if paths_equal(unique[k].as_str(), paths[i].as_str()) {
                seen = true;
            }
            proof {
                if same_path(kept[k as int], paths@[i as int]@) {
                    assert(same_path(kept[k as int], paths@[i as int]@));
                }
            }
            k += 1;
        }
        if !seen {
            let p = to_string(paths[i].as_str());
            unique.push(p);
            assert(unique@.map_values(|p: String| p@) =~= kept.push(paths@[i as int]@));
        }
        i += 1;
    }
    assert(pv.take(paths@.len() as int) =~= pv);
    unique
}

/// The platforms whose conventions place the RAG store.
#[derive(Debug, Clone, Copy, PartialEq, Eq)]
pub enum ArtifactStorePlatform {
    Windows,
    Macos,
    Linux,
    Other,
}

/// A directory: a base (absent for the relative `.zotron`) and the
/// components below it.
#[derive(Debug)]
pub struct StoreRoot {
    pub base: Option<String>,
    pub parts: Vec<&'static str>,
}

/// Where the RAG store lives on a platform, given the environment's
/// directories (each absent when unset or empty).
pub open spec fn store_root(
    platform: ArtifactStorePlatform,
    xdg: Option<Seq<char>>,
    appdata: Option<Seq<char>>,
    userprofile: Option<Seq<char>>,
    home: Option<Seq<char>>,
) -> (Option<Seq<char>>, Seq<Seq<char>>) {
    let roaming = seq!["AppData"@, "Roaming"@, "Zotron"@, "rag"@];
    let local = (None::<Seq<char>>, seq![".zotron"@, "rag"@]);
    match platform {
        ArtifactStorePlatform::Windows => if appdata is Some {
            (appdata, seq!["Zotron"@, "rag"@])
        } else if userprofile is Some {
            (userprofile, roaming)
        } else if home is Some {
            (home, roaming)
        } else {
            local
        },
        ArtifactStorePlatform::Macos => if home is Some {
            (home, seq!["Library"@, "Application Support"@, "Zotron"@, "rag"@])
        } else if xdg is Some {
            (xdg, seq!["zotron"@, "rag"@])
        } else {
            local
        },
        _ => if xdg is Some {
            (xdg, seq!["zotron"@, "rag"@])
        } else if home is Some {
            (home, seq![".local"@, "share"@, "zotron"@, "rag"@])
        } else {
            local
        },
    }
}

fn root(base: Option<String>, parts: Vec<&'static str>) -> (r: StoreRoot)
    ensures
        opt_view(r.base) == opt_view(base),
        r.parts@ == parts@,
{
    StoreRoot { base, parts }
}

/// Where the RAG store lives (see `store_root`); the program joins the
/// components onto the base.
pub fn rag_store_root_for_platform(
    platform: ArtifactStorePlatform,
    xdg_data_home: Option<String>,
    appdata: Option<String>,
    userprofile: Option<String>,
    home: Option<String>,
) -> (r: StoreRoot)
    ensures
        ({
            let (b, p) = store_root(
                platform,
                opt_view(xdg_data_home),
                opt_view(appdata),
                opt_view(userprofile),
                opt_view(home),
            );
            opt_view(r.base) == b && r.parts@.map_values(|s: &str| s@) == p
        }),
{
    let r = match platform {
        ArtifactStorePlatform::Windows => if appdata.is_some() {
            root(appdata, vec!["Zotron", "rag"])
        } else if userprofile.is_some() {
            root(userprofile, vec!["AppData", "Roaming", "Zotron", "rag"])
        } else if home.is_some() {
            root(home, vec!["AppData", "Roaming", "Zotron", "rag"])
        } else {
            root(None, vec![".zotron", "rag"])
        },
        ArtifactStorePlatform::Macos => if home.is_some() {
            root(home, vec!["Library", "Application Support", "Zotron", "rag"])
        } else if xdg_data_home.is_some() {
            root(xdg_data_home, vec!["zotron", "rag"])
        } else {
            root(None, vec![".zotron", "rag"])
        },
        _ => if xdg_data_home.is_some() {
            root(xdg_data_home, vec!["zotron", "rag"])
        } else if home.is_some() {
            root(home, vec![".local", "share", "zotron", "rag"])
        } else {
            root(None, vec![".zotron", "rag"])
        },
    };
    proof {
        let (b, p) = store_root(
            platform,
            opt_view(xdg_data_home),
            opt_view(appdata),
            opt_view(userprofile),
            opt_view(home),
        );
        assert(r.parts@.map_values(|s: &str| s@) =~= p);
    }
    r
}

// ---------------------------------------------------------------------------
// Sidecar lines.
// ---------------------------------------------------------------------------

/// A chunks-sidecar line that is the `{"schema_version": N}` header: valid
/// JSON with a top-level numeric `schema_version` (a chunk whose text merely
/// holds the word is no header).
pub open spec fn schema_header(line: Seq<char>) -> bool {
    match json_parse(line) {
        Ok(v) => match get(v, "schema_version"@) {
            Some(n) => n is Number,
            None => false,
        },
        Err(_) => false,
    }
}

/// Whether a sidecar line is the schema header (see `schema_header`).
pub fn is_chunk_schema_header(line: &str) -> (r: bool)
    ensures
        r == schema_header(line@),
{
    match parse_json(line) {
        Ok(v) => match v.get("schema_version") {
            Some(n) => match n {
                Json::Number(_) => true,
                _ => false,
            },
            None => false,
        },
        Err(_) => false,
    }
}

/// Mapping reranked results never invents an entry: there are at most as
/// many as results, and each carries the chunk index of some candidate.
pub proof fn law_mapped_from_candidates<S>(reranked: Seq<RerankResult<S>>, candidates: Seq<(usize, S)>)
    ensures
        mapped(reranked, candidates).len() <= reranked.len(),
        forall|i: int|
            0 <= i < mapped(reranked, candidates).len() ==> exists|k: int|
                0 <= k < candidates.len() && candidates[k].0 == (#[trigger] mapped(
                    reranked,
                    candidates,
                )[i]).0,
    decreases reranked.len(),
{
    if reranked.len() > 0 {
        law_mapped_from_candidates(reranked.drop_last(), candidates);
        let rest = mapped(reranked.drop_last(), candidates);
        let m = mapped(reranked, candidates);
        assert forall|i: int| 0 <= i < m.len() implies exists|k: int|
            0 <= k < candidates.len() && candidates[k].0 == (#[trigger] m[i]).0 by {
            if i < rest.len() {
                assert(m[i] == rest[i]);
            } else {
                let x = reranked.last();
                assert(candidates[x.index as int].0 == m[i].0);
            }
        }
    }
}

/// The kept paths never hold two that are the same path.
pub proof fn law_unique_paths_distinct(paths: Seq<Seq<char>>)
    ensures
        forall|i: int, j: int|
            0 <= i < j < unique_in(paths).len() ==> !same_path(
                #[trigger] unique_in(paths)[i],
                #[trigger] unique_in(paths)[j],
            ),
    decreases paths.len(),
{
    if paths.len() > 0 {
        law_unique_paths_distinct(paths.drop_last());
        let kept = unique_in(paths.drop_last());
        let u = unique_in(paths);
        assert forall|i: int, j: int| 0 <= i < j < u.len() implies !same_path(
            #[trigger] u[i],
            #[trigger] u[j],
        ) by {
            if j < kept.len() {
                assert(u[i] == kept[i] && u[j] == kept[j]);
            } else {
                assert(u[i] == kept[i]);
                assert(u[j] == paths.last());
                if same_path(kept[i], paths.last()) {
                    assert(exists|k: int| 0 <= k < kept.len() && same_path(#[trigger] kept[k], paths.last()));
                }
            }
        }
    }
}

/// What the command line reports of an embedding provider.
#[derive(Debug, Clone, PartialEq)]
pub struct CliEmbeddingProviderSpec {
    pub id: &'static str,
    pub provider: &'static str,
    pub request_style: &'static str,
    pub default_url: String,
    pub default_model: &'static str,
    pub auth: &'static str,
    pub key_field: &'static str,
}

// ---------------------------------------------------------------------------
// Embedding and retrieval settings.
// ---------------------------------------------------------------------------

/// A string setting in a settings reply, or `default` when it is missing.
pub open spec fn setting_or(v: JsonV, key: Seq<char>, default: Seq<char>) -> Seq<char> {
    match as_str(at(v, key)) {
        Some(s) => s,
        None => default,
    }
}

fn string_setting(v: &Json, key: &str, default: &str) -> (r: String)
    ensures
        r@ == setting_or(v@, key@, default@),
{
    let x = v.at(key);
    match x.as_str() {
        Some(s) => to_string(s),
        None => to_string(default),
    }
}

/// The embedding settings from the replies to `settings.getAll` and
/// `settings.getRaw`: provider (`ollama` by default), model, API URL and API
/// key.
pub open spec fn embedding_settings_in(settings: JsonV, raw: JsonV) -> (
    Seq<char>,
    Seq<char>,
    Seq<char>,
    Seq<char>,
) {
    (
        setting_or(settings, "embedding.provider"@, "ollama"@),
        setting_or(settings, "embedding.model"@, ""@),
        setting_or(settings, "embedding.apiUrl"@, ""@),
        setting_or(raw, "embedding.apiKey"@, ""@),
    )
}

/// Settings by their views.
pub open spec fn four_view(t: (String, String, String, String)) -> (
    Seq<char>,
    Seq<char>,
    Seq<char>,
    Seq<char>,
) {
    (t.0@, t.1@, t.2@, t.3@)
}

/// Reads the embedding settings: `settings.getAll`, then (when that
/// answered) the raw API key with `settings.getRaw`.
pub fn fetch_embedding_settings<C: RpcCaller>(client: &mut C) -> (r: Result<
    (String, String, String, String),
    String,
>)
    ensures
        ({
            let before = old(client).exchanges();
            let after = final(client).exchanges();
            let first = after.subrange(0, before.len() + 1int);
            &&& after.len() > before.len()
            &&& called(before, first, "settings.getAll"@, None)
            &&& match replied(first) {
                Err(e) => after == first && (r matches Err(m) && m@ == e),
                Ok(settings) => {
                    &&& called(
                        first,
                        after,
                        "settings.getRaw"@,
                        Some(raw_setting_params("embedding.apiKey"@)),
                    )
                    &&& match replied(after) {
                        Err(e) => r matches Err(m) && m@ == e,
                        Ok(raw) => r matches Ok(t) && four_view(t) == embedding_settings_in(
                            settings,
                            raw,
                        ),
                    }
                },
            }
        }),
{
    let ghost before = client.exchanges();
    let reply = client.call("settings.getAll", None);
    let ghost first = client.exchanges();
    assert(first.drop_last() =~= before);
    assert(first.subrange(0, before.len() + 1int) =~= first);
    let settings = match reply {
        Ok(v) => v,
        Err(e) => return Err(e),
    };
    let provider = string_setting(&settings, "embedding.provider", "ollama");
    let model = string_setting(&settings, "embedding.model", "");
    let api_url = string_setting(&settings, "embedding.apiUrl", "");
    let raw = client.call("settings.getRaw", Some(raw_setting_request("embedding.apiKey")));
    assert(client.exchanges().drop_last() =~= first);
    assert(client.exchanges().subrange(0, before.len() + 1int) =~= first);
    let raw = match raw {
        Ok(v) => v,
        Err(e) => return Err(e),
    };
    let api_key = string_setting(&raw, "embedding.apiKey", "");
    Ok((provider, model, api_url, api_key))
}

/// The retrieval mode in a `settings.get` reply; `hybrid` when the call
/// fails or the mode is unset.
pub open spec fn retrieval_mode_in(reply: Result<JsonV, Seq<char>>) -> Seq<char> {
    match reply {
        Ok(v) => setting_or(v, "rag.retrievalMode"@, "hybrid"@),
        Err(_) => "hybrid"@,
    }
}

/// Reads the retrieval mode, by one `settings.get`.
pub fn fetch_retrieval_mode<C: RpcCaller>(client: &mut C) -> (r: String)
    ensures
        called(
            old(client).exchanges(),
            final(client).exchanges(),
            "settings.get"@,
            Some(raw_setting_params("rag.retrievalMode"@)),
        ),
        r@ == retrieval_mode_in(replied(final(client).exchanges())),
{
    let reply = client.call("settings.get", Some(raw_setting_request("rag.retrievalMode")));
    assert(client.exchanges().drop_last() =~= old(client).exchanges());
    match reply {
        Ok(v) => string_setting(&v, "rag.retrievalMode", "hybrid"),
        Err(_) => to_string("hybrid"),
    }
}

// ---------------------------------------------------------------------------
// Cutoff settings of retrieval.
// ---------------------------------------------------------------------------

/// How many retrieved chunks to keep: the counts as numbers, the fractional
/// knobs as the text of their settings (the caller reads them as floats), and
/// whether only the deprecated `rag.topK` gave the maximum.
#[derive(Debug)]
pub struct RagCutoffSettings {
    pub min_k: usize,
    pub max_k: usize,
    pub token_budget: usize,
    pub mmr_lambda: String,
    pub score_floor: String,
    pub gap_threshold: String,
    pub top_k_deprecated: bool,
}

/// A count setting: its text parsed, or `default`.
pub open spec fn count_or(text: Seq<char>, default: usize) -> usize {
    match parsed_usize(text) {
        Some(n) => n,
        None => default,
    }
}

/// The deprecated `rag.topK` as a count, when it is one.
pub open spec fn legacy_top_k(settings: JsonV) -> Option<usize> {
    match as_str(at(settings, "rag.topK"@)) {
        Some(s) => parsed_usize(s),
        None => None,
    }
}

/// The cutoff settings read from the `settings.getAll` reply (`Null` when
/// the call failed): `rag.minK` (3), `rag.maxK` (else `rag.topK`, else 20),
/// `rag.tokenBudget` (6000), `rag.mmrLambda` ("0.7"), `rerank.scoreFloor`
/// ("0.1") and `rerank.gapThreshold` ("0.15").
pub open spec fn cutoff_settings_ok(settings: JsonV, r: RagCutoffSettings) -> bool {
    let max_text = setting_or(settings, "rag.maxK"@, ""@);
    &&& r.min_k == count_or(setting_or(settings, "rag.minK"@, "3"@), 3)
    &&& r.max_k == match parsed_usize(max_text) {
        Some(k) => k,
        None => match legacy_top_k(settings) {
            Some(k) => k,
            None => 20,
        },
    }
    &&& r.token_budget == count_or(setting_or(settings, "rag.tokenBudget"@, "6000"@), 6000)
    &&& r.mmr_lambda@ == setting_or(settings, "rag.mmrLambda"@, "0.7"@)
    &&& r.score_floor@ == setting_or(settings, "rerank.scoreFloor"@, "0.1"@)
    &&& r.gap_threshold@ == setting_or(settings, "rerank.gapThreshold"@, "0.15"@)
    &&& r.top_k_deprecated == (legacy_top_k(settings) is Some && max_text.len() == 0)
}

/// The settings document of a `settings.getAll` reply, `Null` for an error.
pub open spec fn settings_or_null(reply: Result<JsonV, Seq<char>>) -> JsonV {
    match reply {
        Ok(v) => v,
        Err(_) => JsonV::Null,
    }
}

fn count_setting(settings: &Json, key: &str, default_text: &str, default: usize) -> (r: usize)
    ensures
        r == count_or(setting_or(settings@, key@, default_text@), default),
{
    let text = string_setting(settings, key, default_text);
    match parse_usize(text.as_str()) {
        Some(n) => n,
        None => default,
    }
}

/// Reads the cutoff settings with one `settings.getAll` call; a failed call
/// gives the defaults.
pub fn fetch_rag_cutoff_settings<C: RpcCaller>(client: &mut C) -> (r: RagCutoffSettings)
    ensures
        called(old(client).exchanges(), final(client).exchanges(), "settings.getAll"@, None),
        cutoff_settings_ok(settings_or_null(replied(final(client).exchanges())), r),
{
    let reply = client.call("settings.getAll", None);
    assert(client.exchanges().drop_last() =~= old(client).exchanges());
    let settings = match reply {
        Ok(v) => v,
        Err(_) => Json::Null,
    };
    let legacy = match settings.get("rag.topK") {
        Some(v) => match v.as_str() {
            Some(s) => parse_usize(s),
            None => None,
        },
        None => None,
    };
    proof {
        assert(legacy == legacy_top_k(settings@));
    }
    let max_text = string_setting(&settings, "rag.maxK", "");
    let max_k = match parse_usize(max_text.as_str()) {
        Some(k) => k,
        None => match legacy {
            Some(k) => k,
            None => 20,
        },
    };
    let top_k_deprecated = legacy.is_some() && max_text.as_str().is_empty();
    RagCutoffSettings {
        min_k: count_setting(&settings, "rag.minK", "3", 3),
        max_k,
        token_budget: count_setting(&settings, "rag.tokenBudget", "6000", 6000),
        mmr_lambda: string_setting(&settings, "rag.mmrLambda", "0.7"),
        score_floor: string_setting(&settings, "rerank.scoreFloor", "0.1"),
        gap_threshold: string_setting(&settings, "rerank.gapThreshold", "0.15"),
        top_k_deprecated,
    }
}

// ---------------------------------------------------------------------------
// Retrieval through the plugin.
// ---------------------------------------------------------------------------

/// The options of `rag search`.
#[derive(Debug)]
pub struct RagSearchOptions {
    pub query: String,
    pub collection: Option<String>,
    pub keys: Vec<String>,
    pub zotero: bool,
    pub top_spans_per_item: u64,
    pub include_fulltext_spans: bool,
    pub top_k: u64,
    pub output: String,
}

/// The parameters of `rag.searchHits`: the query, the limit, the span
/// options, and the collection and keys when given.
pub open spec fn xpi_search_params(o: RagSearchOptions) -> JsonV {
    let base: Seq<(Seq<char>, JsonV)> = seq![
        ("query"@, JsonV::Str(o.query@)),
        ("limit"@, JsonV::Number(NumberV::PosInt(o.top_k))),
        ("top_spans_per_item"@, JsonV::Number(NumberV::PosInt(o.top_spans_per_item))),
        ("include_fulltext_spans"@, JsonV::Bool(o.include_fulltext_spans)),
    ];
    let with_collection = match o.collection {
        Some(c) => base.push(("collection"@, JsonV::Str(c@))),
        None => base,
    };
    JsonV::Object(
        if o.keys@.len() > 0 {
            with_collection.push(("keys"@, JsonV::Array(str_values(o.keys@))))
        } else {
            with_collection
        },
    )
}

/// The `hits` array of a reply; empty when there is none.
pub open spec fn hits_of(payload: JsonV) -> Seq<JsonV> {
    match at(payload, "hits"@) {
        JsonV::Array(a) => a,
        _ => Seq::empty(),
    }
}

/// Each value as compact JSON on a line of its own.
pub open spec fn json_lines(values: Seq<JsonV>) -> Seq<char>
    decreases values.len(),
{
    if values.len() == 0 {
        Seq::empty()
    } else {
        json_lines(values.drop_last()) + compact_json(values.last()) + "\n"@
    }
}

/// What the plugin's search prints: the hits as JSON lines for `jsonl`,
/// else `{items, total}` in the list envelope limited to `top_k`.
pub open spec fn xpi_search_output(o: RagSearchOptions, payload: JsonV) -> Seq<char> {
    let hits = hits_of(payload);
    if o.output@ == "jsonl"@ {
        json_lines(hits)
    } else {
        json_output(
            list_envelope(
                obj2("items"@, JsonV::Array(hits), "total"@, JsonV::Number(NumberV::PosInt(hits.len() as u64))),
                "items"@,
                Some(o.top_k),
                0,
            ),
        )
    }
}

/// Searches through the plugin's `rag.searchHits`; a failed call is returned
/// as its error.
pub fn run_rag_search_xpi_fallback<C: RpcCaller>(client: &mut C, options: &RagSearchOptions) -> (r: Result<
    String,
    String,
>)
    ensures
        called(
            old(client).exchanges(),
            final(client).exchanges(),
            "rag.searchHits"@,
            Some(xpi_search_params(*options)),
        ),
        match replied(final(client).exchanges()) {
            Err(e) => r matches Err(m) && m@ == e,
            Ok(payload) => r matches Ok(s) && s@ == xpi_search_output(*options, payload),
        },
{
    let mut m: Vec<(String, Json)> = Vec::new();
    push_member(&mut m, "query", Json::str(options.query.as_str()));
    push_member(&mut m, "limit", Json::uint(options.top_k));
    push_member(&mut m, "top_spans_per_item", Json::uint(options.top_spans_per_item));
    push_member(&mut m, "include_fulltext_spans", Json::boolean(options.include_fulltext_spans));
    match &options.collection {
        Some(c) => push_member(&mut m, "collection", Json::str(c.as_str())),
        None => {},
    }
    if options.keys.len() > 0 {
        push_member(&mut m, "keys", Json::str_array(&options.keys));
    }
    proof {
        let want = xpi_search_params(*options);
        assert(members_view(m@) =~= want->Object_0);
    }
    let params = object_of(m);
    let reply = client.call("rag.searchHits", Some(params));
    assert(client.exchanges().drop_last() =~= old(client).exchanges());
    let payload = match reply {
        Ok(p) => p,
        Err(e) => return Err(e),
    };
    let hits: Vec<Json> = match payload.at("hits") {
        Json::Array(a) => a,
        _ => Vec::new(),
    };
    let ghost hv = hits_of(payload@);
    assert(hits@.map_values(|x: Json| x@) =~= hv);
    if str_eq(options.output.as_str(), "jsonl") {
        let mut out = String::new();
        let mut i: usize = 0;
        while i < hits.len()
            invariant
                i <= hits@.len(),
                hv == hits@.map_values(|x: Json| x@),
                out@ == json_lines(hv.take(i as int)),
            decreases hits.len() - i,
        {
            let line = json_text(&hits[i]);
            push_str(&mut out, line.as_str());
            push_str(&mut out, "\n");
            assert(hv.take(i + 1).drop_last() =~= hv.take(i as int));
            i += 1;
        }
        assert(hv.take(hits@.len() as int) =~= hv);
        Ok(out)
    } else {
        let total = hits.len() as u64;
        let doc = Json::object2("items", Json::arr(hits), "total", Json::uint(total));
        let page = normalize_list_envelope(doc, "items", Some(options.top_k), 0);
        format_json(&page)
    }
}

/// `rag search --zotero`: retrieval through the plugin, which needs a
/// collection or item keys to search in; without either nothing is called.
pub fn run_rag_search_in_zotero<C: RpcCaller>(client: &mut C, options: &RagSearchOptions) -> (r: Result<
    String,
    String,
>)
    ensures
        options.collection is None && options.keys@.len() == 0 ==> {
            &&& final(client).exchanges() == old(client).exchanges()
            &&& r matches Err(e) && e@ == "INVALID_ARGS: --collection or --key is required when --zotero is used"@
        },
        options.collection is Some || options.keys@.len() > 0 ==> {
            &&& called(
                old(client).exchanges(),
                final(client).exchanges(),
                "rag.searchHits"@,
                Some(xpi_search_params(*options)),
            )
            &&& match replied(final(client).exchanges()) {
                Err(e) => r matches Err(m) && m@ == e,
                Ok(payload) => r matches Ok(s) && s@ == xpi_search_output(*options, payload),
            }
        },
{
    if options.collection.is_none() && options.keys.len() == 0 {
        return Err(to_string("INVALID_ARGS: --collection or --key is required when --zotero is used"));
    }
    run_rag_search_xpi_fallback(client, options)
}

} // verus!
