//! OCR helpers: MinerU endpoint URLs and task replies, provider credentials,
//! file types, and base64 for inline uploads.

use vstd::prelude::*;
use crate::http::message;
use crate::json::{as_array, get, as_str, at, members_view, object_of, push_member, Json, JsonV, NumberV, key_index};
use crate::cli::{called, replied, Exchange, RpcCaller};
use crate::cli::commands::{answered, ask};
use crate::cli::items::{is_pdf_attachment, items_of, pdf_attachment};
use crate::json::obj1;
use crate::web::{raw_setting_params, raw_setting_request};
use crate::paper::opt_view;
use crate::text::{
    ascii_lower, ascii_lower_exec, chars_of, ends_with, ends_with_exec, push_str, starts_with,
    starts_with_exec, str_eq, string_of_range, to_string, trim, trim_exec, is_blank,
};

verus! {

// ---------------------------------------------------------------------------
// MinerU endpoints.
// ---------------------------------------------------------------------------

/// The task endpoint used when none is configured.
pub open spec fn default_task_endpoint() -> Seq<char> {
    "https://mineru.net/api/v4/extract/task"@
}

/// `s` without its trailing `/` characters.
pub open spec fn trim_slashes(s: Seq<char>) -> Seq<char>
    decreases s.len(),
{
    if s.len() > 0 && s.last() == '/' {
        trim_slashes(s.drop_last())
    } else {
        s
    }
}

/// The configured task endpoint, or the default, without trailing slashes.
pub open spec fn endpoint_base(endpoint: Option<Seq<char>>) -> Seq<char> {
    trim_slashes(
        match endpoint {
            Some(e) => e,
            None => default_task_endpoint(),
        },
    )
}

/// The API root: the endpoint without an `/extract/task` or `/extract`
/// suffix.
pub open spec fn api_base(endpoint: Option<Seq<char>>) -> Seq<char> {
    let b = endpoint_base(endpoint);
    if ends_with(b, "/extract/task"@) {
        b.take(b.len() - 13)
    } else if ends_with(b, "/extract"@) {
        b.take(b.len() - 8)
    } else {
        b
    }
}

fn endpoint_base_exec(endpoint: Option<&str>) -> (r: Vec<char>)
    ensures
        r@ == endpoint_base(
            match endpoint {
                Some(e) => Some(e@),
                None => None,
            },
        ),
{
    let v = match endpoint {
        Some(e) => chars_of(e),
        None => chars_of("https://mineru.net/api/v4/extract/task"),
    };
    let mut n = v.len();
    assert(v@.take(v@.len() as int) =~= v@);
    while n > 0 && v[n - 1] == '/'
        invariant
            n <= v@.len(),
            trim_slashes(v@) == trim_slashes(v@.take(n as int)),
        decreases n,
    {
        assert(v@.take(n as int).drop_last() =~= v@.take(n - 1));
        n -= 1;
    }
    assert(v@.take(v@.len() as int) =~= v@);
    crate::text::slice_vec(&v, 0, n)
}

/// The MinerU API root for an endpoint.
pub fn mineru_api_base(endpoint: Option<&str>) -> (r: String)
    ensures
        r@ == api_base(
            match endpoint {
                Some(e) => Some(e@),
                None => None,
            },
        ),
{
    let b = endpoint_base_exec(endpoint);
    let task = chars_of("/extract/task");
    let extract = chars_of("/extract");
    proof {
        reveal_strlit("/extract/task");
        reveal_strlit("/extract");
    }
    if ends_with_exec(&b, &task) {
        assert(b@.take(b@.len() - 13) =~= b@.subrange(0, b@.len() - 13));
        string_of_range(&b, 0, b.len() - 13)
    } else if ends_with_exec(&b, &extract) {
        assert(b@.take(b@.len() - 8) =~= b@.subrange(0, b@.len() - 8));
        string_of_range(&b, 0, b.len() - 8)
    } else {
        crate::text::string_of(&b)
    }
}

/// The status URL of a single MinerU task.
pub fn mineru_task_status_url(endpoint: Option<&str>, task_id: &str) -> (r: String)
    ensures
        ({
            let b = endpoint_base(
                match endpoint {
                    Some(e) => Some(e@),
                    None => None,
                },
            );
            r@ == if ends_with(b, "/extract/task"@) {
                b + "/"@ + task_id@
            } else {
                b + "/extract/task/"@ + task_id@
            }
        }),
{
    let b = endpoint_base_exec(endpoint);
    let task = chars_of("/extract/task");
    let mut out = crate::text::string_of(&b);
    if ends_with_exec(&b, &task) {
        push_str(&mut out, "/");
    } else {
        push_str(&mut out, "/extract/task/");
    }
    push_str(&mut out, task_id);
    out
}

/// The URL that hands out upload slots for a batch.
pub fn mineru_file_urls_url(endpoint: Option<&str>) -> (r: String)
    ensures
        r@ == api_base(
            match endpoint {
                Some(e) => Some(e@),
                None => None,
            },
        ) + "/file-urls/batch"@,
{
    let mut out = mineru_api_base(endpoint);
    push_str(&mut out, "/file-urls/batch");
    out
}

/// The status URL of a batch.
pub fn mineru_batch_status_url(endpoint: Option<&str>, batch_id: &str) -> (r: String)
    ensures
        r@ == api_base(
            match endpoint {
                Some(e) => Some(e@),
                None => None,
            },
        ) + "/extract-results/batch/"@ + batch_id@,
{
    let mut out = mineru_api_base(endpoint);
    push_str(&mut out, "/extract-results/batch/");
    push_str(&mut out, batch_id);
    out
}

// ---------------------------------------------------------------------------
// Batch status replies.
// ---------------------------------------------------------------------------

/// The element `i` of an array, when there is one.
pub open spec fn get_index(v: JsonV, i: int) -> Option<JsonV> {
    match v {
        JsonV::Array(a) => if 0 <= i < a.len() {
            Some(a[i])
        } else {
            None
        },
        _ => None,
    }
}

pub open spec fn then_key(o: Option<JsonV>, k: Seq<char>) -> Option<JsonV> {
    match o {
        Some(v) => get(v, k),
        None => None,
    }
}

pub open spec fn then_first(o: Option<JsonV>) -> Option<JsonV> {
    match o {
        Some(v) => get_index(v, 0),
        None => None,
    }
}

/// The value at `/data/<list>/0/<field>`.
pub open spec fn first_result_field(status: JsonV, list: Seq<char>, field: Seq<char>) -> Option<JsonV> {
    then_key(then_first(then_key(get(status, "data"@), list)), field)
}

/// The first of three places a batch reply may hold `field`: the first
/// `extract_result`, the first `extractResult`, or `data` itself.
pub open spec fn batch_field(status: JsonV, field: Seq<char>) -> Option<JsonV> {
    match first_result_field(status, "extract_result"@, field) {
        Some(v) => Some(v),
        None => match first_result_field(status, "extractResult"@, field) {
            Some(v) => Some(v),
            None => then_key(get(status, "data"@), field),
        },
    }
}

pub open spec fn opt_str(o: Option<JsonV>) -> Option<Seq<char>> {
    match o {
        Some(v) => as_str(v),
        None => None,
    }
}

fn member<'a>(v: &'a Json, key: &str) -> (r: Option<&'a Json>)
    ensures
        match r {
            Some(x) => get(v@, key@) == Some(x@),
            None => get(v@, key@) is None,
        },
{
    v.get(key)
}

fn first_result_field_exec<'a>(status: &'a Json, list: &str, field: &str) -> (r: Option<&'a Json>)
    ensures
        match r {
            Some(x) => first_result_field(status@, list@, field@) == Some(x@),
            None => first_result_field(status@, list@, field@) is None,
        },
{
    let data = match member(status, "data") {
        Some(d) => d,
        None => return None,
    };
    let l = match member(data, list) {
        Some(l) => l,
        None => return None,
    };
    let first = match l {
        Json::Array(a) => if a.len() > 0 {
            assert((l@->Array_0)[0] == a@[0]@);
            &a[0]
        } else {
            return None;
        },
        _ => return None,
    };
    member(first, field)
}

fn batch_field_exec<'a>(status: &'a Json, field: &str) -> (r: Option<&'a Json>)
    ensures
        match r {
            Some(x) => batch_field(status@, field@) == Some(x@),
            None => batch_field(status@, field@) is None,
        },
{
    match first_result_field_exec(status, "extract_result", field) {
        Some(v) => return Some(v),
        None => {},
    }
    match first_result_field_exec(status, "extractResult", field) {
        Some(v) => return Some(v),
        None => {},
    }
    match member(status, "data") {
        Some(d) => member(d, field),
        None => None,
    }
}

/// The state a MinerU batch reports.
pub fn mineru_batch_state(status: &Json) -> (r: Option<String>)
    ensures
        opt_view(r) == opt_str(batch_field(status@, "state"@)),
{
    match batch_field_exec(status, "state") {
        Some(v) => match v.as_str() {
            Some(s) => Some(to_string(s)),
            None => None,
        },
        None => None,
    }
}

/// The URL of a finished batch's result archive.
pub fn mineru_batch_zip_url(status: &Json) -> (r: Option<String>)
    ensures
        opt_view(r) == opt_str(batch_field(status@, "full_zip_url"@)),
{
    match batch_field_exec(status, "full_zip_url") {
        Some(v) => match v.as_str() {
            Some(s) => Some(to_string(s)),
            None => None,
        },
        None => None,
    }
}

/// The record of an OCR task submitted asynchronously, when the provider's
/// reply names a task.
pub open spec fn async_task(provider: Seq<char>, payload: JsonV) -> Option<JsonV> {
    match get(payload, "data"@) {
        None => None,
        Some(data) => match opt_str(get(data, "task_id"@)) {
            None => None,
            Some(task) => Some(
                JsonV::Object(
                    seq![
                        ("provider"@, JsonV::Str(provider)),
                        ("status"@, JsonV::Str("submitted"@)),
                        ("taskId"@, JsonV::Str(task)),
                        ("state"@, JsonV::Str(
                            match opt_str(get(data, "state"@)) {
                                Some(s) => s,
                                None => "submitted"@,
                            },
                        )),
                        ("resultUrl"@, match get(data, "full_zip_url"@) {
                            Some(u) => u,
                            None => match get(data, "markdown_url"@) {
                                Some(u) => u,
                                None => JsonV::Null,
                            },
                        }),
                        ("raw"@, payload),
                    ],
                ),
            ),
        },
    }
}

/// The task record for an asynchronous OCR submission (see `async_task`).
pub fn ocr_async_task_result(provider: &str, payload: &Json) -> (r: Option<Json>)
    ensures
        match r {
            Some(v) => async_task(provider@, payload@) == Some(v@),
            None => async_task(provider@, payload@) is None,
        },
{
    let data = match member(payload, "data") {
        Some(d) => d,
        None => return None,
    };
    let task = match member(data, "task_id") {
        Some(t) => match t.as_str() {
            Some(s) => to_string(s),
            None => return None,
        },
        None => return None,
    };
    let state = match member(data, "state") {
        Some(s) => match s.as_str() {
            Some(x) => to_string(x),
            None => to_string("submitted"),
        },
        None => to_string("submitted"),
    };
    let result_url = match member(data, "full_zip_url") {
        Some(u) => u.clone_json(),
        None => match member(data, "markdown_url") {
            Some(u) => u.clone_json(),
            None => Json::Null,
        },
    };
    let ghost uv = result_url@;
    let mut members: Vec<(String, Json)> = Vec::new();
    members.push((to_string("provider"), Json::str(provider)));
    members.push((to_string("status"), Json::str("submitted")));
    members.push((to_string("taskId"), Json::str(task.as_str())));
    members.push((to_string("state"), Json::str(state.as_str())));
    members.push((to_string("resultUrl"), result_url));
    members.push((to_string("raw"), payload.clone_json()));
    let r = Json::Object(members);
    proof {
        let m = r@->Object_0;
        let want = async_task(provider@, payload@).unwrap()->Object_0;
        assert(m[0] == want[0]);
        assert(m[1] == want[1]);
        assert(m[2] == want[2]);
        assert(m[3] == want[3]);
        assert(m[4] == want[4]);
        assert(m[5] == want[5]);
        assert(m =~= want);
    }
    Some(r)
}

/// Whether a tag (a string, or a record with a `tag`) is `ocr`.
pub fn tag_is_ocr(tag: &Json) -> (r: bool)
    ensures
        r == (as_str(tag@) == Some("ocr"@) || opt_str(get(tag@, "tag"@)) == Some("ocr"@)),
{
    let direct = match tag.as_str() {
        Some(s) => str_eq(s, "ocr"),
        None => false,
    };
    if direct {
        return true;
    }
    match member(tag, "tag") {
        Some(t) => match t.as_str() {
            Some(s) => str_eq(s, "ocr"),
            None => false,
        },
        None => false,
    }
}

// ---------------------------------------------------------------------------
// Provider credentials.
// ---------------------------------------------------------------------------

/// The authentication header value for a credential read from the
/// environment variable `env`: the trimmed token, with `Bearer ` or `token `
/// put in front for those schemes unless it is already there.
pub open spec fn auth_header(env: Seq<char>, token: Option<Seq<char>>, scheme: Seq<char>) -> Result<
    Seq<char>,
    Seq<char>,
> {
    match token {
        None => Err("missing provider credential env var "@ + env),
        Some(raw) => {
            let t = trim(raw);
            if t.len() == 0 {
                Err("provider credential env var "@ + env + " is empty"@)
            } else if scheme == "bearer"@ {
                if starts_with(t, "Bearer "@) {
                    Ok(t)
                } else {
                    Ok("Bearer "@ + t)
                }
            } else if scheme == "token"@ {
                if starts_with(t, "token "@) {
                    Ok(t)
                } else {
                    Ok("token "@ + t)
                }
            } else {
                Ok(t)
            }
        },
    }
}

/// Builds a provider's authentication header value from the credential the
/// program read from the environment variable `api_key_env` (`None` when
/// the variable is not set).
pub fn provider_auth_header_value(api_key_env: &str, token: Option<&str>, auth_scheme: &str) -> (r:
    Result<String, String>)
    ensures
        match (
            r,
            auth_header(
                api_key_env@,
                match token {
                    Some(t) => Some(t@),
                    None => None,
                },
                auth_scheme@,
            ),
        ) {
            (Ok(a), Ok(b)) => a@ == b,
            (Err(a), Err(b)) => a@ == b,
            _ => false,
        },
{
    let raw = match token {
        Some(t) => t,
        None => return Err(message("missing provider credential env var ", api_key_env)),
    };
    let t = trim_exec(raw);
    if t.as_str().is_empty() {
        let mut m = message("provider credential env var ", api_key_env);
        push_str(&mut m, " is empty");
        return Err(m);
    }
    let tv = chars_of(t.as_str());
    if str_eq(auth_scheme, "bearer") {
        let p = chars_of("Bearer ");
        if starts_with_exec(&tv, &p) {
            Ok(t)
        } else {
            Ok(message("Bearer ", t.as_str()))
        }
    } else if str_eq(auth_scheme, "token") {
        let p = chars_of("token ");
        if starts_with_exec(&tv, &p) {
            Ok(t)
        } else {
            Ok(message("token ", t.as_str()))
        }
    } else {
        Ok(t)
    }
}

// ---------------------------------------------------------------------------
// File types.
// ---------------------------------------------------------------------------

/// The extension `std::path::Path::extension` finds in a path.
pub uninterp spec fn path_extension(path: Seq<char>) -> Option<Seq<char>>;

/// `Path::new(path).extension()`, as text (`None` also when it is not valid
/// Unicode, which a `&str` path cannot produce). Taken to depend on the path
/// alone; the path grammar is not restated here.
#[verifier::external_body]
fn extension_of(path: &str) -> (r: Option<String>)
    ensures
        opt_view(r) == path_extension(path@),
{
    std::path::Path::new(path).extension().and_then(|e| e.to_str()).map(|e| e.to_string())
}

/// The ASCII-lower-cased extension of a path, or the empty text.
pub open spec fn lower_ext(path: Seq<char>) -> Seq<char> {
    match path_extension(path) {
        Some(e) => ascii_lower(e),
        None => Seq::empty(),
    }
}

fn lower_ext_exec(path: &str) -> (r: Vec<char>)
    ensures
        r@ == lower_ext(path@),
{
    match extension_of(path) {
        Some(e) => ascii_lower_exec(&chars_of(e.as_str())),
        None => {
            let v: Vec<char> = Vec::new();
            assert(v@ =~= Seq::<char>::empty());
            v
        },
    }
}

/// The MIME type guessed from a file's extension (PDF unless it is a known
/// image type).
pub open spec fn mime_for(path: Seq<char>) -> Seq<char> {
    let e = lower_ext(path);
    if e == "png"@ {
        "image/png"@
    } else if e == "jpg"@ || e == "jpeg"@ {
        "image/jpeg"@
    } else if e == "webp"@ {
        "image/webp"@
    } else {
        "application/pdf"@
    }
}

/// Guesses a file's MIME type from its extension.
pub fn guess_mime_type(path: &str) -> (r: &'static str)
    ensures
        r@ == mime_for(path@),
{
    let e = lower_ext_exec(path);
    let s = crate::text::string_of(&e);
    if str_eq(s.as_str(), "png") {
        "image/png"
    } else if str_eq(s.as_str(), "jpg") || str_eq(s.as_str(), "jpeg") {
        "image/jpeg"
    } else if str_eq(s.as_str(), "webp") {
        "image/webp"
    } else {
        "application/pdf"
    }
}

/// A file whose extension marks an image.
pub open spec fn image_file(path: Seq<char>) -> bool {
    let e = lower_ext(path);
    e == "png"@ || e == "jpg"@ || e == "jpeg"@ || e == "webp"@ || e == "gif"@
}

/// Whether a file is an image, by its extension.
pub fn is_image_file(path: &str) -> (r: bool)
    ensures
        r == image_file(path@),
{
    let e = lower_ext_exec(path);
    let s = crate::text::string_of(&e);
    str_eq(s.as_str(), "png") || str_eq(s.as_str(), "jpg") || str_eq(s.as_str(), "jpeg") || str_eq(
        s.as_str(),
        "webp",
    ) || str_eq(s.as_str(), "gif")
}

// ---------------------------------------------------------------------------
// Base64.
// ---------------------------------------------------------------------------

/// The base64 digit for `n < 64` (standard alphabet).
pub open spec fn b64_digit(n: int) -> char {
    if n < 26 {
        (65 + n) as char
    } else if n < 52 {
        (97 + n - 26) as char
    } else if n < 62 {
        (48 + n - 52) as char
    } else if n == 62 {
        '+'
    } else {
        '/'
    }
}

/// The four characters for a group of one to three bytes, `=`-padded.
pub open spec fn b64_group(g: Seq<u8>) -> Seq<char> {
    let b0 = g[0] as int;
    let b1 = if g.len() > 1 {
        g[1] as int
    } else {
        0
    };
    let b2 = if g.len() > 2 {
        g[2] as int
    } else {
        0
    };
    seq![
        b64_digit(b0 / 4),
        b64_digit((b0 % 4) * 16 + b1 / 16),
        if g.len() > 1 {
            b64_digit((b1 % 16) * 4 + b2 / 64)
        } else {
            '='
        },
        if g.len() > 2 {
            b64_digit(b2 % 64)
        } else {
            '='
        },
    ]
}

/// Standard base64 with padding.
pub open spec fn base64(bytes: Seq<u8>) -> Seq<char>
    decreases bytes.len(),
{
    if bytes.len() == 0 {
        seq![]
    } else if bytes.len() <= 3 {
        b64_group(bytes)
    } else {
        b64_group(bytes.take(3)) + base64(bytes.skip(3))
    }
}

fn b64_digit_exec(n: u8) -> (r: char)
    requires
        n < 64,
    ensures
        r == b64_digit(n as int),
{
    if n < 26 {
        crate::text::char_from_ascii(65 + n)
    } else if n < 52 {
        crate::text::char_from_ascii(97 + n - 26)
    } else if n < 62 {
        crate::text::char_from_ascii(48 + n - 52)
    } else if n == 62 {
        '+'
    } else {
        '/'
    }
}

proof fn lemma_base64_split(bytes: Seq<u8>, i: int)
    requires
        0 <= i <= bytes.len(),
        i % 3 == 0,
    ensures
        base64(bytes) == base64(bytes.take(i)) + base64(bytes.skip(i)),
    decreases i,
{
    if i == 0 {
        assert(bytes.take(0) =~= Seq::<u8>::empty());
        assert(bytes.skip(0) =~= bytes);
    } else {
        lemma_base64_split(bytes, i - 3);
        let a = bytes.take(i - 3);
        let rest = bytes.skip(i - 3);
        if rest.len() <= 3 {
            assert(rest.len() == 3);
            assert(bytes.skip(i).len() == 0);
            assert(bytes.take(i) =~= a + rest);
        } else {
            assert(rest.take(3) =~= bytes.subrange(i - 3, i));
            assert(rest.skip(3) =~= bytes.skip(i));
        }
        lemma_base64_append(a, bytes.subrange(i - 3, i));
        assert(bytes.take(i) =~= a + bytes.subrange(i - 3, i));
    }
}

proof fn lemma_base64_append(a: Seq<u8>, g: Seq<u8>)
    requires
        a.len() % 3 == 0,
        g.len() == 3,
    ensures
        base64(a + g) == base64(a) + b64_group(g),
    decreases a.len(),
{
    if a.len() == 0 {
        assert(a + g =~= g);
    } else {
        let t = a.skip(3);
        lemma_base64_append(t, g);
        assert((a + g).take(3) =~= a.take(3));
        assert((a + g).skip(3) =~= t + g);
    }
}

/// Encodes bytes as standard base64 with padding.
pub fn base64_encode(bytes: &[u8]) -> (r: String)
    ensures
        r@ == base64(bytes@),
{
    let mut out = String::new();
    let mut i: usize = 0;
    let n = bytes.len();
    while n - i >= 3
        invariant
            n == bytes@.len(),
            i <= n,
            i % 3 == 0,
            out@ == base64(bytes@.take(i as int)),
        decreases n - i,
    {
        let b0 = bytes[i];
        let b1 = bytes[i + 1];
        let b2 = bytes[i + 2];
        let ghost before = out@;
        out.push(b64_digit_exec(b0 / 4));
        out.push(b64_digit_exec((b0 % 4) * 16 + b1 / 16));
        out.push(b64_digit_exec((b1 % 16) * 4 + b2 / 64));
        out.push(b64_digit_exec(b2 % 64));
        proof {
            let g = bytes@.subrange(i as int, i + 3);
            assert(g[0] == b0 && g[1] == b1 && g[2] == b2);
            assert(out@ =~= before + b64_group(g));
            lemma_base64_append(bytes@.take(i as int), g);
            assert(bytes@.take(i as int) + g =~= bytes@.take(i + 3));
        }
        i += 3;
    }
    if i < n {
        let b0 = bytes[i];
        let b1: u8 = if n - i > 1 {
            bytes[i + 1]
        } else {
            0
        };
        let ghost before = out@;
        out.push(b64_digit_exec(b0 / 4));
        out.push(b64_digit_exec((b0 % 4) * 16 + b1 / 16));
        if n - i > 1 {
            out.push(b64_digit_exec((b1 % 16) * 4));
        } else {
            out.push('=');
        }
        out.push('=');
        proof {
            let g = bytes@.skip(i as int);
            assert(g.len() <= 2);
            assert(out@ =~= before + b64_group(g));
            lemma_base64_split(bytes@, i as int);
        }
    } else {
        proof {
            assert(bytes@.take(i as int) =~= bytes@);
        }
    }
    out
}

/// Base64 text is four characters for every started group of three bytes.
pub proof fn law_base64_length(bytes: Seq<u8>)
    ensures
        base64(bytes).len() == 4 * ((bytes.len() + 2) / 3),
    decreases bytes.len(),
{
    if bytes.len() > 3 {
        law_base64_length(bytes.skip(3));
    }
}

/// A character of the base64 alphabet (padding aside).
pub open spec fn is_b64_char(c: char) -> bool {
    ('A' <= c <= 'Z') || ('a' <= c <= 'z') || ('0' <= c <= '9') || c == '+' || c == '/'
}

/// How many `=` pad the encoding of `n` bytes.
pub open spec fn b64_padding(n: nat) -> int {
    (3 - (n % 3) as int) % 3
}

proof fn lemma_b64_digit_in_alphabet(n: int)
    requires
        0 <= n < 64,
    ensures
        is_b64_char(b64_digit(n)),
        b64_value(b64_digit(n)) == n,
{
}

/// Law: the encoding is made of the base64 alphabet, followed by exactly
/// `(3 - len % 3) % 3` padding characters.
pub proof fn law_base64_alphabet_and_padding(bytes: Seq<u8>)
    ensures
        forall|i: int|
            0 <= i < base64(bytes).len() - b64_padding(bytes.len()) ==> is_b64_char(
                #[trigger] base64(bytes)[i],
            ),
        forall|i: int|
            base64(bytes).len() - b64_padding(bytes.len()) <= i < base64(bytes).len() ==> #[trigger] base64(
                bytes,
            )[i] == '=',
    decreases bytes.len(),
{
    law_base64_length(bytes);
    if bytes.len() == 0 {
    } else {
        let g = if bytes.len() <= 3 {
            bytes
        } else {
            bytes.take(3)
        };
        let b0 = g[0] as int;
        let b1 = if g.len() > 1 {
            g[1] as int
        } else {
            0
        };
        let b2 = if g.len() > 2 {
            g[2] as int
        } else {
            0
        };
        lemma_b64_digit_in_alphabet(b0 / 4);
        lemma_b64_digit_in_alphabet((b0 % 4) * 16 + b1 / 16);
        lemma_b64_digit_in_alphabet((b1 % 16) * 4 + b2 / 64);
        lemma_b64_digit_in_alphabet(b2 % 64);
        if bytes.len() > 3 {
            let rest = bytes.skip(3);
            law_base64_alphabet_and_padding(rest);
            law_base64_length(rest);
            assert(b64_padding(rest.len()) == b64_padding(bytes.len()));
            let t = base64(bytes);
            assert(t == b64_group(g) + base64(rest));
            assert forall|i: int| 4 <= i < t.len() implies t[i] == base64(rest)[i - 4] by {}
        }
    }
}

/// The value of a base64 digit.
pub open spec fn b64_value(c: char) -> int {
    if 'A' <= c <= 'Z' {
        (c as int) - 65
    } else if 'a' <= c <= 'z' {
        (c as int) - 71
    } else if '0' <= c <= '9' {
        (c as int) + 4
    } else if c == '+' {
        62
    } else {
        63
    }
}

/// Standard base64 decoding of padded text, four characters at a time.
pub open spec fn base64_decode(t: Seq<char>) -> Seq<u8>
    decreases t.len(),
{
    if t.len() < 4 {
        seq![]
    } else {
        let v0 = b64_value(t[0]);
        let v1 = b64_value(t[1]);
        let v2 = b64_value(t[2]);
        let v3 = b64_value(t[3]);
        let c0 = (v0 * 4 + v1 / 16) as u8;
        let c1 = ((v1 % 16) * 16 + v2 / 4) as u8;
        let c2 = ((v2 % 4) * 64 + v3) as u8;
        let g = if t[2] == '=' {
            seq![c0]
        } else if t[3] == '=' {
            seq![c0, c1]
        } else {
            seq![c0, c1, c2]
        };
        g + base64_decode(t.skip(4))
    }
}

proof fn lemma_b64_group_round_trip(g: Seq<u8>, rest: Seq<char>)
    requires
        1 <= g.len() <= 3,
    ensures
        base64_decode(b64_group(g) + rest) == g + base64_decode(rest),
{
    let t = b64_group(g) + rest;
    let b0 = g[0] as int;
    let b1 = if g.len() > 1 {
        g[1] as int
    } else {
        0
    };
    let b2 = if g.len() > 2 {
        g[2] as int
    } else {
        0
    };
    lemma_b64_digit_in_alphabet(b0 / 4);
    lemma_b64_digit_in_alphabet((b0 % 4) * 16 + b1 / 16);
    lemma_b64_digit_in_alphabet((b1 % 16) * 4 + b2 / 64);
    lemma_b64_digit_in_alphabet(b2 % 64);
    assert(t.skip(4) =~= rest);
    let v1 = (b0 % 4) * 16 + b1 / 16;
    let v2 = (b1 % 16) * 4 + b2 / 64;
    assert((b0 / 4) * 4 + v1 / 16 == b0);
    assert((v1 % 16) * 16 + v2 / 4 == b1);
    assert((v2 % 4) * 64 + b2 % 64 == b2);
    if g.len() == 1 {
        assert(t[2] == '=');
    } else if g.len() == 2 {
        assert(t[2] != '=');
        assert(t[3] == '=');
    } else {
        assert(t[2] != '=');
        assert(t[3] != '=');
    }
    assert(base64_decode(t) =~= g + base64_decode(rest));
}

/// Law: standard base64 decoding of the encoding gives the bytes back.
pub proof fn law_base64_round_trip(bytes: Seq<u8>)
    ensures
        base64_decode(base64(bytes)) == bytes,
    decreases bytes.len(),
{
    if bytes.len() == 0 {
    } else if bytes.len() <= 3 {
        lemma_b64_group_round_trip(bytes, seq![]);
        assert(b64_group(bytes) + Seq::<char>::empty() =~= b64_group(bytes));
        assert(bytes + Seq::<u8>::empty() =~= bytes);
    } else {
        law_base64_round_trip(bytes.skip(3));
        lemma_b64_group_round_trip(bytes.take(3), base64(bytes.skip(3)));
        assert(bytes.take(3) + bytes.skip(3) =~= bytes);
    }
}

/// What the command line reports of an OCR provider.
#[derive(Debug, Clone, PartialEq)]
pub struct CliOcrProviderSpec {
    pub id: &'static str,
    pub provider: &'static str,
    pub request_style: &'static str,
    pub auth: &'static str,
    pub auth_header: &'static str,
    pub supports_pdf_direct: bool,
    pub key_field: &'static str,
}

// ---------------------------------------------------------------------------
// Settings and attachments read over RPC.
// ---------------------------------------------------------------------------

/// Whether a tag list holds the `ocr` tag.
pub open spec fn tags_have_ocr(tags: Seq<JsonV>) -> bool
    decreases tags.len(),
{
    tags.len() > 0 && (tags_have_ocr(tags.drop_last()) || as_str(tags.last()) == Some("ocr"@)
        || opt_str(get(tags.last(), "tag"@)) == Some("ocr"@))
}

/// Whether some note in a `notes.list` reply is tagged `ocr`.
pub open spec fn notes_have_ocr(notes: Seq<JsonV>) -> bool
    decreases notes.len(),
{
    notes.len() > 0 && (notes_have_ocr(notes.drop_last()) || match as_array(
        at(notes.last(), "tags"@),
    ) {
        Some(tags) => tags_have_ocr(tags),
        None => false,
    })
}

fn any_ocr_tag(tags: &Vec<Json>) -> (r: bool)
    ensures
        r == tags_have_ocr(tags@.map_values(|x: Json| x@)),
{
    let ghost tv = tags@.map_values(|x: Json| x@);
    let mut i: usize = 0;
    while i < tags.len()
        invariant
            i <= tags@.len(),
            tv == tags@.map_values(|x: Json| x@),
            !tags_have_ocr(tv.take(i as int)),
        decreases tags.len() - i,
    {
        assert(tv.take(i + 1).drop_last() =~= tv.take(i as int));
        assert(tv.take(i + 1).last() == tags@[i as int]@);
        if tag_is_ocr(&tags[i]) {
            proof {
                lemma_tags_have_ocr_prefix(tv, i + 1);
            }
            return true;
        }
        i += 1;
    }
    assert(tv.take(tags@.len() as int) =~= tv);
    false
}

proof fn lemma_tags_have_ocr_prefix(tags: Seq<JsonV>, n: int)
    requires
        0 <= n <= tags.len(),
        tags_have_ocr(tags.take(n)),
    ensures
        tags_have_ocr(tags),
    decreases tags.len() - n,
{
    if n < tags.len() {
        assert(tags.take(n + 1).drop_last() =~= tags.take(n));
        lemma_tags_have_ocr_prefix(tags, n + 1);
    } else {
        assert(tags.take(n) =~= tags);
    }
}

proof fn lemma_notes_have_ocr_prefix(notes: Seq<JsonV>, n: int)
    requires
        0 <= n <= notes.len(),
        notes_have_ocr(notes.take(n)),
    ensures
        notes_have_ocr(notes),
    decreases notes.len() - n,
{
    if n < notes.len() {
        assert(notes.take(n + 1).drop_last() =~= notes.take(n));
        lemma_notes_have_ocr_prefix(notes, n + 1);
    } else {
        assert(notes.take(n) =~= notes);
    }
}

/// Whether an item has a note tagged `ocr`, by one `notes.list`.
#[verifier::loop_isolation(false)]
pub fn has_ocr_note<C: RpcCaller>(client: &mut C, item_key: &Json) -> (r: Result<bool, String>)
    ensures
        called(
            old(client).exchanges(),
            final(client).exchanges(),
            "notes.list"@,
            Some(obj1("parentKey"@, item_key@)),
        ),
        match replied(final(client).exchanges()) {
            Err(e) => r matches Err(m) && m@ == e,
            Ok(v) => r == Ok::<bool, String>(
                match as_array(v) {
                    Some(notes) => notes_have_ocr(notes),
                    None => false,
                },
            ),
        },
{
    let notes = match ask(client, "notes.list", Some(Json::object1("parentKey", item_key.clone_json()))) {
        Ok(v) => v,
        Err(e) => return Err(e),
    };
    let list = match notes.as_array() {
        Some(l) => l,
        None => return Ok(false),
    };
    let ghost nv = list@.map_values(|x: Json| x@);
    let mut i: usize = 0;
    while i < list.len()
        invariant
            i <= list@.len(),
            nv == list@.map_values(|x: Json| x@),
            !notes_have_ocr(nv.take(i as int)),
        decreases list.len() - i,
    {
        assert(nv.take(i + 1).drop_last() =~= nv.take(i as int));
        assert(nv.take(i + 1).last() == list@[i as int]@);
        let tags = list[i].at("tags");
        let tagged = match tags.as_array() {
            Some(ts) => any_ocr_tag(ts),
            None => false,
        };
        if tagged {
            proof {
                lemma_notes_have_ocr_prefix(nv, i + 1);
            }
            return Ok(true);
        }
        i += 1;
    }
    assert(nv.take(list@.len() as int) =~= nv);
    Ok(false)
}

/// The key of the first PDF attachment (with a key) in a list of
/// attachments.
pub open spec fn first_pdf_key(attachments: Seq<JsonV>) -> Option<Seq<char>>
    decreases attachments.len(),
{
    if attachments.len() == 0 {
        None
    } else if pdf_attachment(attachments[0]) && as_str(at(attachments[0], "key"@)) is Some {
        as_str(at(attachments[0], "key"@))
    } else {
        first_pdf_key(attachments.drop_first())
    }
}

/// The first PDF attachment of an item, from an `attachments.list` reply.
pub open spec fn pdf_key_in(reply: JsonV, parent: Seq<char>) -> Result<Seq<char>, Seq<char>> {
    match items_of(reply) {
        None => Err("NO_PDF_ATTACHMENT: no attachments found for item "@ + parent),
        Some(a) => match first_pdf_key(a) {
            Some(k) => Ok(k),
            None => Err("NO_PDF_ATTACHMENT: no PDF attachment found for item "@ + parent),
        },
    }
}

/// The key of an item's first PDF attachment, by one `attachments.list`.
#[verifier::loop_isolation(false)]
pub fn resolve_first_pdf_attachment_key<C: RpcCaller>(client: &mut C, parent_key: &str) -> (r: Result<
    String,
    String,
>)
    ensures
        called(
            old(client).exchanges(),
            final(client).exchanges(),
            "attachments.list"@,
            Some(obj1("parentKey"@, JsonV::Str(parent_key@))),
        ),
        match (r, match replied(final(client).exchanges()) {
            Err(e) => Err(e),
            Ok(v) => pdf_key_in(v, parent_key@),
        }) {
            (Ok(k), Ok(w)) => k@ == w,
            (Err(e), Err(f)) => e@ == f,
            _ => false,
        },
{
    let response = match ask(
        client,
        "attachments.list",
        Some(Json::object1("parentKey", Json::str(parent_key))),
    ) {
        Ok(v) => v,
        Err(e) => return Err(e),
    };
    let items = response.at("items");
    let list: &Vec<Json> = match items.as_array() {
        Some(a) => a,
        None => match response.as_array() {
            Some(a) => a,
            None => return Err(message("NO_PDF_ATTACHMENT: no attachments found for item ", parent_key)),
        },
    };
    let ghost av = list@.map_values(|x: Json| x@);
    assert(items_of(response@) == Some(av));
    let mut i: usize = 0;
    assert(av.skip(0) =~= av);
    while i < list.len()
        invariant
            i <= list@.len(),
            av == list@.map_values(|x: Json| x@),
            first_pdf_key(av) == first_pdf_key(av.skip(i as int)),
        decreases list.len() - i,
    {
        assert(av.skip(i as int).drop_first() =~= av.skip(i + 1));
        assert(av.skip(i as int)[0] == list@[i as int]@);
        if is_pdf_attachment(&list[i]) {
            let k = list[i].at("key");
            match k.as_str() {
                Some(key) => return Ok(to_string(key)),
                None => {},
            }
        }
        i += 1;
    }
    Err(message("NO_PDF_ATTACHMENT: no PDF attachment found for item ", parent_key))
}

/// The path Zotero gives for an attachment: its non-blank `path`.
pub open spec fn attachment_path_in(reply: JsonV, key: Seq<char>) -> Result<Seq<char>, Seq<char>> {
    match as_str(at(reply, "path"@)) {
        Some(p) => if trim(p).len() > 0 {
            Ok(p)
        } else {
            Err("ATTACHMENT_PATH_NOT_FOUND: attachment "@ + key + " has no local PDF path"@)
        },
        None => Err("ATTACHMENT_PATH_NOT_FOUND: attachment "@ + key + " has no local PDF path"@),
    }
}

/// The path of an attachment's file as Zotero sees it, by one
/// `attachments.getPath` (the caller translates it to a local path).
pub fn resolve_attachment_path<C: RpcCaller>(client: &mut C, attachment_key: &str) -> (r: Result<
    String,
    String,
>)
    ensures
        called(
            old(client).exchanges(),
            final(client).exchanges(),
            "attachments.getPath"@,
            Some(obj1("key"@, JsonV::Str(attachment_key@))),
        ),
        match (r, match replied(final(client).exchanges()) {
            Err(e) => Err(e),
            Ok(v) => attachment_path_in(v, attachment_key@),
        }) {
            (Ok(p), Ok(w)) => p@ == w,
            (Err(e), Err(f)) => e@ == f,
            _ => false,
        },
{
    let payload = match ask(
        client,
        "attachments.getPath",
        Some(Json::object1("key", Json::str(attachment_key))),
    ) {
        Ok(v) => v,
        Err(e) => return Err(e),
    };
    let p = payload.at("path");
    let missing = {
        let mut m = message("ATTACHMENT_PATH_NOT_FOUND: attachment ", attachment_key);
        push_str(&mut m, " has no local PDF path");
        m
    };
    match p.as_str() {
        Some(s) => if is_blank(s) {
            Err(missing)
        } else {
            Ok(to_string(s))
        },
        None => Err(missing),
    }
}

/// The OCR provider named in a `settings.getAll` reply, when it is set.
pub open spec fn ocr_provider_in(settings: JsonV) -> Result<Seq<char>, Seq<char>> {
    match as_str(at(settings, "ocr.provider"@)) {
        Some(p) => if p.len() > 0 {
            Ok(p)
        } else {
            Err(ocr_provider_missing())
        },
        None => Err(ocr_provider_missing()),
    }
}

pub open spec fn ocr_provider_missing() -> Seq<char> {
    "MISSING_CONFIG: ocr.provider not configured \u{2014} set it in Zotero \u{2192} Settings \u{2192} Zotron \u{2192} OCR Settings"@
}

/// The OCR provider configured in Zotero, by one `settings.getAll`.
pub fn fetch_ocr_provider_from_settings<C: RpcCaller>(client: &mut C) -> (r: Result<String, String>)
    ensures
        called(old(client).exchanges(), final(client).exchanges(), "settings.getAll"@, None),
        match (r, match replied(final(client).exchanges()) {
            Err(e) => Err(e),
            Ok(v) => ocr_provider_in(v),
        }) {
            (Ok(p), Ok(w)) => p@ == w,
            (Err(e), Err(f)) => e@ == f,
            _ => false,
        },
{
    let settings = match ask(client, "settings.getAll", None) {
        Ok(v) => v,
        Err(e) => return Err(e),
    };
    let p = settings.at("ocr.provider");
    match p.as_str() {
        Some(s) => if chars_of(s).len() > 0 {
            return Ok(to_string(s));
        },
        None => {},
    }
    Err(
        to_string(
            "MISSING_CONFIG: ocr.provider not configured \u{2014} set it in Zotero \u{2192} Settings \u{2192} Zotron \u{2192} OCR Settings",
        ),
    )
}

/// A string setting in a settings reply; empty when it is missing.
pub open spec fn setting_or_empty(v: JsonV, key: Seq<char>) -> Seq<char> {
    match as_str(at(v, key)) {
        Some(s) => s,
        None => seq![],
    }
}

/// The OCR API key stored in Zotero, by one `settings.getRaw`; empty when
/// the call fails or the key is unset.
pub fn fetch_ocr_api_key_from_settings<C: RpcCaller>(client: &mut C) -> (r: String)
    ensures
        called(
            old(client).exchanges(),
            final(client).exchanges(),
            "settings.getRaw"@,
            Some(raw_setting_params("ocr.apiKey"@)),
        ),
        r@ == match replied(final(client).exchanges()) {
            Err(_) => seq![],
            Ok(v) => setting_or_empty(v, "ocr.apiKey"@),
        },
{
    match ask(client, "settings.getRaw", Some(raw_setting_request("ocr.apiKey"))) {
        Ok(raw) => {
            let k = raw.at("ocr.apiKey");
            match k.as_str() {
                Some(s) => to_string(s),
                None => String::new(),
            }
        },
        Err(_) => String::new(),
    }
}

/// The environment variable that holds the OCR API key: the one given, or
/// `ZOTRON_OCR_API_KEY`.
pub open spec fn ocr_key_env(api_key_env: Option<String>) -> Seq<char> {
    match api_key_env {
        Some(e) => e@,
        None => "ZOTRON_OCR_API_KEY"@,
    }
}

/// The name of the OCR key variable (see `ocr_key_env`).
pub fn ocr_key_env_name(api_key_env: &Option<String>) -> (r: String)
    ensures
        r@ == ocr_key_env(*api_key_env),
{
    match api_key_env {
        Some(e) => to_string(e.as_str()),
        None => to_string("ZOTRON_OCR_API_KEY"),
    }
}

/// What `ocr process` settles before processing: the provider, the variable
/// the API key is read from, and a key from Zotero's settings to put there
/// when the variable has none.
#[derive(Debug)]
pub struct OcrProcessSettings {
    pub provider: String,
    pub api_key_env: String,
    pub api_key: Option<String>,
}

/// Whether processing needs a key from Zotero: it calls the provider (no
/// result directory or archive was given) and the key variable is unset or
/// empty.
pub open spec fn needs_settings_key(from_result: bool, env_value: Option<String>) -> bool {
    !from_result && match env_value {
        Some(v) => v@.len() == 0,
        None => true,
    }
}

/// The provider: the one given, or Zotero's `ocr.provider` setting after
/// the calls in `mid`.
pub open spec fn chosen_provider(provider: Option<String>, mid: Seq<Exchange>) -> Result<Seq<char>, Seq<char>> {
    match provider {
        Some(p) => Ok(p@),
        None => match replied(mid) {
            Err(e) => Err(e),
            Ok(v) => ocr_provider_in(v),
        },
    }
}

/// The key to put in the variable, from the `settings.getRaw` reply: none
/// when it is empty or the call failed.
pub open spec fn settings_key(reply: Result<JsonV, Seq<char>>) -> Option<Seq<char>> {
    match reply {
        Err(_) => None,
        Ok(v) => if setting_or_empty(v, "ocr.apiKey"@).len() > 0 {
            Some(setting_or_empty(v, "ocr.apiKey"@))
        } else {
            None
        },
    }
}

/// Settles the provider and the API key of `ocr process`. `env_value` is
/// the value of the variable `ocr_key_env(api_key_env)` names, when it is
/// set; `from_result` says that a result directory or archive was given.
/// Without a provider, Zotero's `ocr.provider` setting is read
/// (`settings.getAll`); when a key is needed (see `needs_settings_key`),
/// `ocr.apiKey` is read (`settings.getRaw`).
pub fn resolve_ocr_process_settings<C: RpcCaller>(
    client: &mut C,
    provider: Option<String>,
    api_key_env: Option<String>,
    from_result: bool,
    env_value: Option<String>,
) -> (r: Result<OcrProcessSettings, String>)
    ensures
        ({
            let before = old(client).exchanges();
            let after = final(client).exchanges();
            let mid = after.subrange(0, before.len() + if provider is None { 1int } else { 0int });
            &&& after.len() >= mid.len()
            &&& (provider is None ==> called(before, mid, "settings.getAll"@, None))
            &&& (provider is Some ==> mid == before)
            &&& match chosen_provider(provider, mid) {
                Err(e) => after == mid && (r matches Err(m) && m@ == e),
                Ok(p) => r matches Ok(s) && s.provider@ == p && s.api_key_env@ == ocr_key_env(
                    api_key_env,
                ) && if needs_settings_key(from_result, env_value) {
                    called(mid, after, "settings.getRaw"@, Some(raw_setting_params("ocr.apiKey"@)))
                        && opt_view(s.api_key) == settings_key(replied(after))
                } else {
                    after == mid && s.api_key is None
                },
            }
        }),
{
    let ghost before = client.exchanges();
    let chosen = match provider {
        Some(p) => p,
        None => {
            let r = fetch_ocr_provider_from_settings(client);
            assert(client.exchanges().subrange(0, before.len() + 1int) =~= client.exchanges());
            match r {
                Ok(p) => p,
                Err(e) => return Err(e),
            }
        },
    };
    let ghost mid = client.exchanges();
    let env_name = ocr_key_env_name(&api_key_env);
    let needs = !from_result && match &env_value {
        Some(v) => v.as_str().is_empty(),
        None => true,
    };
    let api_key = if needs {
        let k = fetch_ocr_api_key_from_settings(client);
        if k.as_str().is_empty() {
            None
        } else {
            Some(k)
        }
    } else {
        None
    };
    proof {
        let after = client.exchanges();
        if needs {
            assert(after.subrange(0, mid.len() as int) =~= mid);
        } else {
            assert(after.subrange(0, mid.len() as int) =~= mid);
        }
    }
    Ok(OcrProcessSettings { provider: chosen, api_key_env: env_name, api_key })
}

// ---------------------------------------------------------------------------
// OCR status and processing checks.
// ---------------------------------------------------------------------------

/// How many verdicts say yes.
pub open spec fn count_true(v: Seq<bool>) -> nat
    decreases v.len(),
{
    if v.len() == 0 {
        0
    } else {
        count_true(v.drop_last()) + if v.last() {
            1nat
        } else {
            0nat
        }
    }
}

/// The report of `ocr status`: the collection, how many items it holds, how
/// many of them have OCR and how many do not.
pub open spec fn ocr_status_json(collection: Seq<char>, total: nat, with_ocr: nat) -> JsonV {
    JsonV::Object(
        seq![
            ("collection"@, JsonV::Str(collection)),
            ("total"@, JsonV::Number(NumberV::PosInt(total as u64))),
            ("has_ocr"@, JsonV::Number(NumberV::PosInt(with_ocr as u64))),
            ("missing_ocr"@, JsonV::Number(NumberV::PosInt((total - with_ocr) as u64))),
        ],
    )
}

/// The report of `ocr status` for a collection's items, given for each item
/// whether it has OCR (an artifact or an OCR note).
pub fn ocr_status_report(collection: &str, items: &Vec<Json>, has_ocr: &Vec<bool>) -> (r: Json)
    requires
        has_ocr@.len() == items@.len(),
    ensures
        r@ == ocr_status_json(collection@, items@.len(), count_true(has_ocr@)),
{
    let mut n: usize = 0;
    let mut i: usize = 0;
    while i < has_ocr.len()
        invariant
            i <= has_ocr@.len(),
            n == count_true(has_ocr@.take(i as int)),
            n <= i,
        decreases has_ocr.len() - i,
    {
        assert(has_ocr@.take(i + 1).drop_last() =~= has_ocr@.take(i as int));
        if has_ocr[i] {
            n += 1;
        }
        i += 1;
    }
    assert(has_ocr@.take(has_ocr@.len() as int) =~= has_ocr@);
    let total = items.len();
    let mut m: Vec<(String, Json)> = Vec::new();
    push_member(&mut m, "collection", Json::str(collection));
    push_member(&mut m, "total", Json::uint(total as u64));
    push_member(&mut m, "has_ocr", Json::uint(n as u64));
    push_member(&mut m, "missing_ocr", Json::uint((total - n) as u64));
    assert(members_view(m@) =~= ocr_status_json(collection@, items@.len(), count_true(has_ocr@))->Object_0);
    object_of(m)
}

/// What `ocr process` refuses about where a MinerU result comes from: both
/// a result directory and an archive, or a source URL beside either.
pub open spec fn mineru_sources_refusal(source_url: bool, result_dir: bool, result_zip: bool) -> Option<Seq<char>> {
    if result_dir && result_zip {
        Some("INVALID_ARGS: use either --result-dir or --result-zip, not both"@)
    } else if source_url && (result_dir || result_zip) {
        Some("INVALID_ARGS: --source-url cannot be combined with --result-dir/--result-zip"@)
    } else {
        None
    }
}

/// Checks where a MinerU result comes from (see `mineru_sources_refusal`):
/// whether a source URL, a result directory and a result archive were given.
pub fn check_mineru_sources(source_url: bool, result_dir: bool, result_zip: bool) -> (r: Result<(), String>)
    ensures
        match mineru_sources_refusal(source_url, result_dir, result_zip) {
            Some(e) => r matches Err(m) && m@ == e,
            None => r is Ok,
        },
{
    if result_dir && result_zip {
        return Err(to_string("INVALID_ARGS: use either --result-dir or --result-zip, not both"));
    }
    if source_url && (result_dir || result_zip) {
        return Err(to_string("INVALID_ARGS: --source-url cannot be combined with --result-dir/--result-zip"));
    }
    Ok(())
}

} // verus!
