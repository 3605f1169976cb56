//! Character-sequence toolkit shared by the parsers: search, trimming,
//! whitespace handling and case folding over `Seq<char>`, with executable
//! versions over `Vec<char>`.
//!
//! Every parser of this crate works on the characters of its input. A match of
//! a pattern in UTF-8 bytes always lies on character boundaries, so searching
//! by characters finds the same occurrences as searching by bytes.

use vstd::prelude::*;

verus! {

// ---------------------------------------------------------------------------
// Conversions between `str`/`String` and `Vec<char>`.
// ---------------------------------------------------------------------------

/// Appending one character to a `String` extends its characters by it.
pub assume_specification[ std::string::String::push ](s: &mut std::string::String, ch: char)
    ensures
        final(s)@ == old(s)@.push(ch),
;

/// The characters of `s`, in order.
pub fn chars_of(s: &str) -> (r: Vec<char>)
    ensures
        r@ == s@,
{
    let mut r: Vec<char> = Vec::new();
    for c in it: s.chars()
        invariant
            r@ == it.seq().take(it.index() as int),
            it.seq() == s@,
    {
        r.push(c);
    }
    r
}

/// Appends the characters `v[from..to]` to `out`.
pub fn push_range(out: &mut String, v: &Vec<char>, from: usize, to: usize)
    requires
        from <= to <= v@.len(),
    ensures
        final(out)@ == old(out)@ + v@.subrange(from as int, to as int),
{
    let mut i = from;
    while i < to
        invariant
            from <= i <= to <= v@.len(),
            out@ == old(out)@ + v@.subrange(from as int, i as int),
        decreases to - i,
    {
        out.push(v[i]);
        i += 1;
        assert(v@.subrange(from as int, i as int) =~= v@.subrange(from as int, (i - 1) as int).push(
            v@[i - 1],
        ));
    }
}

/// Appends all characters of `v` to `out`.
pub fn push_all(out: &mut String, v: &Vec<char>)
    ensures
        final(out)@ == old(out)@ + v@,
{
    push_range(out, v, 0, v.len());
    assert(v@.subrange(0, v@.len() as int) =~= v@);
}

/// Appends the characters of `s` to `out`.
pub fn push_str(out: &mut String, s: &str)
    ensures
        final(out)@ == old(out)@ + s@,
{
    let v = chars_of(s);
    push_all(out, &v);
}

/// The string made of the characters `v[from..to]`.
pub fn string_of_range(v: &Vec<char>, from: usize, to: usize) -> (r: String)
    requires
        from <= to <= v@.len(),
    ensures
        r@ == v@.subrange(from as int, to as int),
{
    let mut r = String::new();
    push_range(&mut r, v, from, to);
    assert(Seq::<char>::empty() + v@.subrange(from as int, to as int) =~= v@.subrange(
        from as int,
        to as int,
    ));
    r
}

/// The string made of the characters of `v`.
pub fn string_of(v: &Vec<char>) -> (r: String)
    ensures
        r@ == v@,
{
    let r = string_of_range(v, 0, v.len());
    assert(v@.subrange(0, v@.len() as int) =~= v@);
    r
}

/// A copy of `s` as an owned `String`.
pub fn to_string(s: &str) -> (r: String)
    ensures
        r@ == s@,
{
    let v = chars_of(s);
    string_of(&v)
}

/// Character-wise equality of two strings.
pub fn str_eq(a: &str, b: &str) -> (r: bool)
    ensures
        r == (a@ == b@),
{
    let x = chars_of(a);
    let y = chars_of(b);
    seq_eq(&x, &y)
}

/// Element-wise equality of two character vectors.
pub fn seq_eq(x: &Vec<char>, y: &Vec<char>) -> (r: bool)
    ensures
        r == (x@ == y@),
{
    if x.len() != y.len() {
        return false;
    }
    let mut i: usize = 0;
    while i < x.len()
        invariant
            x@.len() == y@.len(),
            0 <= i <= x@.len(),
            forall|k: int| 0 <= k < i ==> x@[k] == y@[k],
        decreases x.len() - i,
    {
        if x[i] != y[i] {
            return false;
        }
        i += 1;
    }
    assert(x@ =~= y@);
    true
}

// ---------------------------------------------------------------------------
// Pattern search.
// ---------------------------------------------------------------------------

/// `pat` occurs in `s` starting at index `i`.
pub open spec fn matches_at(s: Seq<char>, pat: Seq<char>, i: int) -> bool {
    0 <= i && i + pat.len() <= s.len() && s.subrange(i, i + pat.len()) == pat
}

/// The first index `>= from` at which `pat` occurs in `s`.
pub open spec fn find_from(s: Seq<char>, pat: Seq<char>, from: int) -> Option<int>
    decreases s.len() + 1 - from,
{
    if from < 0 || from > s.len() || from + pat.len() > s.len() {
        None
    } else if matches_at(s, pat, from) {
        Some(from)
    } else {
        find_from(s, pat, from + 1)
    }
}

/// The first index at which `pat` occurs in `s`.
pub open spec fn find(s: Seq<char>, pat: Seq<char>) -> Option<int> {
    find_from(s, pat, 0)
}

/// `pat` occurs somewhere in `s`.
pub open spec fn contains(s: Seq<char>, pat: Seq<char>) -> bool {
    find(s, pat) is Some
}

/// The last index `<= i` at which `pat` occurs in `s`.
pub open spec fn rfind_upto(s: Seq<char>, pat: Seq<char>, i: int) -> Option<int>
    decreases i + 1,
{
    if i < 0 {
        None
    } else if matches_at(s, pat, i) {
        Some(i)
    } else {
        rfind_upto(s, pat, i - 1)
    }
}

/// The last index at which `pat` occurs in `s`.
pub open spec fn rfind(s: Seq<char>, pat: Seq<char>) -> Option<int> {
    rfind_upto(s, pat, s.len() - pat.len())
}

pub open spec fn starts_with(s: Seq<char>, pat: Seq<char>) -> bool {
    matches_at(s, pat, 0)
}

pub open spec fn ends_with(s: Seq<char>, pat: Seq<char>) -> bool {
    matches_at(s, pat, s.len() - pat.len())
}

/// A found index is a match, and no earlier index from `from` on is one.
pub proof fn lemma_find_from_spec(s: Seq<char>, pat: Seq<char>, from: int)
    requires
        0 <= from,
    ensures
        find_from(s, pat, from) matches Some(i) ==> from <= i && matches_at(s, pat, i) && forall|
            j: int,
        |
            from <= j < i ==> !matches_at(s, pat, j),
        find_from(s, pat, from) is None ==> forall|j: int| from <= j ==> !matches_at(s, pat, j),
    decreases s.len() + 1 - from,
{
    if from > s.len() || from + pat.len() > s.len() {
    } else if matches_at(s, pat, from) {
    } else {
        lemma_find_from_spec(s, pat, from + 1);
    }
}

/// A found index is a match, and no later index up to `i` is one.
pub proof fn lemma_rfind_upto_spec(s: Seq<char>, pat: Seq<char>, i: int)
    ensures
        rfind_upto(s, pat, i) matches Some(k) ==> k <= i && matches_at(s, pat, k) && forall|
            j: int,
        |
            k < j <= i ==> !matches_at(s, pat, j),
        rfind_upto(s, pat, i) is None ==> forall|j: int| j <= i ==> !matches_at(s, pat, j),
    decreases i + 1,
{
    if i < 0 {
    } else if matches_at(s, pat, i) {
    } else {
        lemma_rfind_upto_spec(s, pat, i - 1);
    }
}

/// Whether `pat` occurs in `s` at index `i`.
pub fn matches_at_exec(s: &Vec<char>, pat: &Vec<char>, i: usize) -> (r: bool)
    ensures
        r == matches_at(s@, pat@, i as int),
{
    if i > s.len() || pat.len() > s.len() - i {
        return false;
    }
    let mut j: usize = 0;
    while j < pat.len()
        invariant
            i + pat@.len() <= s@.len(),
            s@.len() == s.len(),
            pat@.len() == pat.len(),
            0 <= j <= pat@.len(),
            forall|k: int| 0 <= k < j ==> s@[i + k] == pat@[k],
        decreases pat.len() - j,
    {
        if s[i + j] != pat[j] {
            assert(s@.subrange(i as int, i + pat@.len())[j as int] != pat@[j as int]);
            return false;
        }
        j += 1;
    }
    assert(s@.subrange(i as int, i + pat@.len()) =~= pat@);
    true
}

/// The first index `>= from` at which `pat` occurs in `s`.
pub fn find_from_exec(s: &Vec<char>, pat: &Vec<char>, from: usize) -> (r: Option<usize>)
    ensures
        r matches Some(i) ==> find_from(s@, pat@, from as int) == Some(i as int),
        r matches Some(i) ==> from <= i && i + pat@.len() <= s@.len(),
        r is None ==> find_from(s@, pat@, from as int) is None,
        s@.len() <= usize::MAX,
{
    let _n = s.len();
    proof {
        lemma_find_from_spec(s@, pat@, from as int);
    }
    let mut i = from;
    while i <= s.len() && pat.len() <= s.len() - i
        invariant
            from <= i,
            find_from(s@, pat@, from as int) == find_from(s@, pat@, i as int),
        decreases s.len() + 1 - i,
    {
        if matches_at_exec(s, pat, i) {
            return Some(i);
        }
        proof {
            if i as int == s@.len() {
                assert(s@.subrange(i as int, i as int) =~= pat@);
            }
        }
        i += 1;
    }
    None
}

/// The first index at which `pat` occurs in `s`.
pub fn find_exec(s: &Vec<char>, pat: &Vec<char>) -> (r: Option<usize>)
    ensures
        r matches Some(i) ==> find(s@, pat@) == Some(i as int),
        r matches Some(i) ==> i + pat@.len() <= s@.len(),
        r is None ==> find(s@, pat@) is None,
        s@.len() <= usize::MAX,
{
    find_from_exec(s, pat, 0)
}

/// Whether `pat` occurs in `s`.
pub fn contains_exec(s: &Vec<char>, pat: &Vec<char>) -> (r: bool)
    ensures
        r == contains(s@, pat@),
{
    find_exec(s, pat).is_some()
}

/// The last index at which `pat` occurs in `s`.
pub fn rfind_exec(s: &Vec<char>, pat: &Vec<char>) -> (r: Option<usize>)
    ensures
        r matches Some(i) ==> rfind(s@, pat@) == Some(i as int),
        r matches Some(i) ==> i + pat@.len() <= s@.len(),
        r is None ==> rfind(s@, pat@) is None,
        s@.len() <= usize::MAX,
{
    let _n = s.len();
    proof {
        lemma_rfind_upto_spec(s@, pat@, s@.len() - pat@.len());
    }
    if pat.len() > s.len() {
        return None;
    }
    let mut i = s.len() - pat.len();
    loop
        invariant
            i <= s@.len() - pat@.len(),
            s@.len() <= usize::MAX,
            rfind(s@, pat@) == rfind_upto(s@, pat@, i as int),
        decreases i,
    {
        if matches_at_exec(s, pat, i) {
            return Some(i);
        }
        if i == 0 {
            assert(rfind_upto(s@, pat@, -1) is None);
            return None;
        }
        i -= 1;
    }
}

pub fn starts_with_exec(s: &Vec<char>, pat: &Vec<char>) -> (r: bool)
    ensures
        r == starts_with(s@, pat@),
{
    matches_at_exec(s, pat, 0)
}

pub fn ends_with_exec(s: &Vec<char>, pat: &Vec<char>) -> (r: bool)
    ensures
        r == ends_with(s@, pat@),
{
    if pat.len() > s.len() {
        return false;
    }
    matches_at_exec(s, pat, s.len() - pat.len())
}

// ---------------------------------------------------------------------------
// Whitespace.
// ---------------------------------------------------------------------------

/// The Unicode `White_Space` property, which `char::is_whitespace` tests.
pub open spec fn is_ws(c: char) -> bool {
    let u = c as u32;
    (0x9 <= u <= 0xD) || u == 0x20 || u == 0x85 || u == 0xA0 || u == 0x1680 || (0x2000 <= u
        <= 0x200A) || u == 0x2028 || u == 0x2029 || u == 0x202F || u == 0x205F || u == 0x3000
}

pub fn is_ws_exec(c: char) -> (r: bool)
    ensures
        r == is_ws(c),
{
    let u = c as u32;
    (0x9 <= u && u <= 0xD) || u == 0x20 || u == 0x85 || u == 0xA0 || u == 0x1680 || (0x2000 <= u
        && u <= 0x200A) || u == 0x2028 || u == 0x2029 || u == 0x202F || u == 0x205F || u == 0x3000
}

/// `s` without its leading whitespace.
pub open spec fn trim_start(s: Seq<char>) -> Seq<char>
    decreases s.len(),
{
    if s.len() > 0 && is_ws(s[0]) {
        trim_start(s.drop_first())
    } else {
        s
    }
}

/// `s` without its trailing whitespace.
pub open spec fn trim_end(s: Seq<char>) -> Seq<char>
    decreases s.len(),
{
    if s.len() > 0 && is_ws(s.last()) {
        trim_end(s.drop_last())
    } else {
        s
    }
}

/// `s` without leading and trailing whitespace.
pub open spec fn trim(s: Seq<char>) -> Seq<char> {
    trim_end(trim_start(s))
}

/// `s` holds nothing but whitespace.
pub open spec fn all_ws(s: Seq<char>) -> bool {
    forall|k: int| 0 <= k < s.len() ==> is_ws(#[trigger] s[k])
}

/// The index of the first character of `s[from..]` that is not whitespace
/// (or `s.len()`).
pub fn skip_ws(s: &Vec<char>, from: usize) -> (r: usize)
    requires
        from <= s@.len(),
    ensures
        from <= r <= s@.len(),
        forall|k: int| from <= k < r ==> is_ws(#[trigger] s@[k]),
        r < s@.len() ==> !is_ws(s@[r as int]),
        trim_start(s@.subrange(from as int, s@.len() as int)) == s@.subrange(
            r as int,
            s@.len() as int,
        ),
{
    let mut i = from;
    while i < s.len() && is_ws_exec(s[i])
        invariant
            from <= i <= s@.len(),
            forall|k: int| from <= k < i ==> is_ws(#[trigger] s@[k]),
            trim_start(s@.subrange(from as int, s@.len() as int)) == trim_start(
                s@.subrange(i as int, s@.len() as int),
            ),
        decreases s.len() - i,
    {
        assert(s@.subrange(i as int, s@.len() as int).drop_first() =~= s@.subrange(
            i + 1,
            s@.len() as int,
        ));
        i += 1;
    }
    i
}

/// One past the last character of `s[..to]` that is not whitespace (or 0),
/// scanning no further left than `lo`.
pub fn skip_ws_back(s: &Vec<char>, lo: usize, to: usize) -> (r: usize)
    requires
        lo <= to <= s@.len(),
    ensures
        lo <= r <= to,
        forall|k: int| r <= k < to ==> is_ws(#[trigger] s@[k]),
        r > lo ==> !is_ws(s@[r - 1]),
        r > lo ==> trim_end(s@.subrange(lo as int, to as int)) == s@.subrange(lo as int, r as int),
        r == lo ==> trim_end(s@.subrange(lo as int, to as int)).len() == 0,
{
    let mut j = to;
    while j > lo && is_ws_exec(s[j - 1])
        invariant
            lo <= j <= to <= s@.len(),
            forall|k: int| j <= k < to ==> is_ws(#[trigger] s@[k]),
            trim_end(s@.subrange(lo as int, to as int)) == trim_end(
                s@.subrange(lo as int, j as int),
            ),
        decreases j,
    {
        assert(s@.subrange(lo as int, j as int).drop_last() =~= s@.subrange(
            lo as int,
            j - 1,
        ));
        j -= 1;
    }
    if j == lo {
        assert(s@.subrange(lo as int, j as int).len() == 0);
    }
    j
}

/// The characters of `s[from..to]` without leading and trailing whitespace.
pub fn trim_range(s: &Vec<char>, from: usize, to: usize) -> (r: String)
    requires
        from <= to <= s@.len(),
    ensures
        r@ == trim(s@.subrange(from as int, to as int)),
{
    let ghost sub = s@.subrange(from as int, to as int);
    let mut lo = from;
    while lo < to && is_ws_exec(s[lo])
        invariant
            from <= lo <= to <= s@.len(),
            sub == s@.subrange(from as int, to as int),
            trim_start(sub) == trim_start(s@.subrange(lo as int, to as int)),
        decreases to - lo,
    {
        assert(s@.subrange(lo as int, to as int).drop_first() =~= s@.subrange(lo + 1, to as int));
        lo += 1;
    }
    let hi = skip_ws_back(s, lo, to);
    if hi == lo {
        let r = String::new();
        assert(r@ =~= trim_end(s@.subrange(lo as int, to as int)));
        r
    } else {
        string_of_range(s, lo, hi)
    }
}

/// `s` without leading and trailing whitespace.
pub fn trim_exec(s: &str) -> (r: String)
    ensures
        r@ == trim(s@),
{
    let v = chars_of(s);
    let r = trim_range(&v, 0, v.len());
    assert(v@.subrange(0, v@.len() as int) =~= v@);
    r
}

/// Whether `s` is empty after trimming whitespace.
pub fn is_blank(s: &str) -> (r: bool)
    ensures
        r == (trim(s@).len() == 0),
{
    let t = trim_exec(s);
    t.as_str().is_empty()
}

// ---------------------------------------------------------------------------
// Words.
// ---------------------------------------------------------------------------

/// The length of the leading run of non-whitespace characters of `s`.
pub open spec fn word_len(s: Seq<char>) -> nat
    decreases s.len(),
{
    if s.len() == 0 || is_ws(s[0]) {
        0
    } else {
        1 + word_len(s.drop_first())
    }
}

/// The maximal runs of non-whitespace characters of `s`, in order (what
/// `str::split_whitespace` yields).
pub open spec fn words(s: Seq<char>) -> Seq<Seq<char>>
    decreases s.len(),
{
    let t = trim_start(s);
    if t.len() == 0 {
        seq![]
    } else {
        let n = word_len(t);
        if 0 < n <= t.len() && t.len() <= s.len() {
            seq![t.take(n as int)] + words(t.skip(n as int))
        } else {
            seq![]
        }
    }
}

/// The pieces of `ws`, with `sep` between neighbours.
pub open spec fn join(ws: Seq<Seq<char>>, sep: Seq<char>) -> Seq<char>
    decreases ws.len(),
{
    if ws.len() == 0 {
        seq![]
    } else if ws.len() == 1 {
        ws[0]
    } else {
        ws[0] + sep + join(ws.drop_first(), sep)
    }
}

/// The words of `s` joined by single spaces: every run of whitespace becomes
/// one space, and leading and trailing whitespace is dropped.
pub open spec fn collapse_ws(s: Seq<char>) -> Seq<char> {
    join(words(s), seq![' '])
}

pub proof fn lemma_trim_start_len(s: Seq<char>)
    ensures
        trim_start(s).len() <= s.len(),
        trim_start(s).len() > 0 ==> !is_ws(trim_start(s)[0]),
        trim_start(s) == s.skip(s.len() - trim_start(s).len()),
    decreases s.len(),
{
    if s.len() > 0 && is_ws(s[0]) {
        lemma_trim_start_len(s.drop_first());
        assert(s.drop_first().skip(s.drop_first().len() - trim_start(s).len()) =~= s.skip(
            s.len() - trim_start(s).len(),
        ));
    } else {
        assert(s.skip(0) =~= s);
    }
}

pub proof fn lemma_word_len(s: Seq<char>)
    ensures
        word_len(s) <= s.len(),
        forall|k: int| 0 <= k < word_len(s) ==> !is_ws(#[trigger] s[k]),
        word_len(s) < s.len() ==> is_ws(s[word_len(s) as int]),
    decreases s.len(),
{
    if s.len() == 0 || is_ws(s[0]) {
    } else {
        lemma_word_len(s.drop_first());
        assert forall|k: int| 0 <= k < word_len(s) implies !is_ws(#[trigger] s[k]) by {
            if k > 0 {
                assert(s[k] == s.drop_first()[k - 1]);
            }
        }
    }
}

/// Removing whitespace in front does not change the words.
pub proof fn lemma_words_skip_ws(s: Seq<char>, i: int)
    requires
        0 <= i <= s.len(),
        forall|k: int| 0 <= k < i ==> is_ws(#[trigger] s[k]),
    ensures
        words(s) == words(s.skip(i)),
    decreases i,
{
    if i > 0 {
        assert(trim_start(s) == trim_start(s.drop_first()));
        lemma_trim_start_len(s);
        lemma_trim_start_len(s.drop_first());
        assert(s.drop_first().skip(i - 1) =~= s.skip(i));
        lemma_words_skip_ws(s.drop_first(), i - 1);
        lemma_words_trim(s);
        lemma_words_trim(s.drop_first());
    } else {
        assert(s.skip(0) =~= s);
    }
}

/// The words of `s` are those of `trim_start(s)`.
pub proof fn lemma_words_trim(s: Seq<char>)
    ensures
        words(s) == words(trim_start(s)),
    decreases s.len(),
{
    lemma_trim_start_idem(s);
    lemma_trim_start_len(s);
    let t = trim_start(s);
    if t.len() == 0 {
    } else {
        let n = word_len(t);
        lemma_word_len(t);
    }
}

pub proof fn lemma_trim_start_idem(s: Seq<char>)
    ensures
        trim_start(trim_start(s)) == trim_start(s),
    decreases s.len(),
{
    if s.len() > 0 && is_ws(s[0]) {
        lemma_trim_start_idem(s.drop_first());
    }
}

/// Splitting off a leading word `s[..n]` ending at whitespace or the end.
pub proof fn lemma_words_cons(s: Seq<char>, n: int)
    requires
        0 < n <= s.len(),
        forall|k: int| 0 <= k < n ==> !is_ws(#[trigger] s[k]),
        n < s.len() ==> is_ws(s[n]),
    ensures
        words(s) == seq![s.take(n)] + words(s.skip(n)),
{
    assert(trim_start(s) == s);
    lemma_word_len_exact(s, n);
}

pub proof fn lemma_word_len_exact(s: Seq<char>, n: int)
    requires
        0 <= n <= s.len(),
        forall|k: int| 0 <= k < n ==> !is_ws(#[trigger] s[k]),
        n < s.len() ==> is_ws(s[n]),
    ensures
        word_len(s) == n,
    decreases n,
{
    if n > 0 {
        assert forall|k: int| 0 <= k < n - 1 implies !is_ws(#[trigger] s.drop_first()[k]) by {
            assert(s.drop_first()[k] == s[k + 1]);
        }
        if n < s.len() {
            assert(s.drop_first()[n - 1] == s[n]);
        }
        lemma_word_len_exact(s.drop_first(), n - 1);
    }
}

pub proof fn lemma_join_cons(w: Seq<char>, ws: Seq<Seq<char>>, sep: Seq<char>)
    ensures
        join(seq![w] + ws, sep) == if ws.len() == 0 {
            w
        } else {
            w + sep + join(ws, sep)
        },
{
    let all = seq![w] + ws;
    assert(all[0] == w);
    if ws.len() > 0 {
        assert(all.drop_first() =~= ws);
    }
}

/// The words of `s` joined by single spaces.
pub fn collapse_ws_exec(s: &Vec<char>) -> (r: String)
    ensures
        r@ == collapse_ws(s@),
{
    let mut out = String::new();
    let mut i: usize = 0;
    assert(s@.skip(0) =~= s@);
    loop
        invariant
            i <= s@.len(),
            out@ + (if out@.len() > 0 && words(s@.skip(i as int)).len() > 0 {
                seq![' ']
            } else {
                Seq::<char>::empty()
            }) + join(words(s@.skip(i as int)), seq![' ']) == collapse_ws(s@),
        decreases s@.len() - i,
    {
        let j = skip_ws(s, i);
        proof {
            let rest = s@.skip(i as int);
            assert forall|k: int| 0 <= k < j - i implies is_ws(#[trigger] rest[k]) by {
                assert(rest[k] == s@[i + k]);
            }
            lemma_words_skip_ws(rest, j - i);
            assert(rest.skip(j - i) =~= s@.skip(j as int));
        }
        if j == s.len() {
            proof {
                assert(s@.skip(j as int).len() == 0);
                assert(trim_start(s@.skip(j as int)).len() == 0);
                assert(words(s@.skip(j as int)).len() == 0);
                assert(out@ + Seq::<char>::empty() + Seq::<char>::empty() =~= out@);
            }
            return out;
        }
        let mut k = j;
        while k < s.len() && !is_ws_exec(s[k])
            invariant
                j <= k <= s@.len(),
                forall|m: int| j <= m < k ==> !is_ws(#[trigger] s@[m]),
            decreases s.len() - k,
        {
            k += 1;
        }
        let ghost rest = s@.skip(j as int);
        let ghost w = s@.subrange(j as int, k as int);
        proof {
            assert forall|m: int| 0 <= m < k - j implies !is_ws(#[trigger] rest[m]) by {
                assert(rest[m] == s@[j + m]);
            }
            if k < s@.len() {
                assert(rest[k - j] == s@[k as int]);
            }
            lemma_words_cons(rest, k - j);
            assert(rest.take(k - j) =~= w);
            assert(rest.skip(k - j) =~= s@.skip(k as int));
            lemma_join_cons(w, words(s@.skip(k as int)), seq![' ']);
        }
        let ghost before = out@;
        if out.as_str().is_empty() == false {
            out.push(' ');
        }
        push_range(&mut out, s, j, k);
        proof {
            let tail = words(s@.skip(k as int));
            if before.len() > 0 {
                assert(out@ == before + seq![' '] + w);
            } else {
                assert(out@ =~= w);
            }
            assert(out@.len() > 0);
            if tail.len() > 0 {
                assert(out@ + seq![' '] + join(tail, seq![' ']) =~= before + (if before.len() > 0 {
                    seq![' ']
                } else {
                    Seq::<char>::empty()
                }) + (w + seq![' '] + join(tail, seq![' '])));
            } else {
                assert(out@ + Seq::<char>::empty() + join(tail, seq![' ']) =~= before + (
                if before.len() > 0 {
                    seq![' ']
                } else {
                    Seq::<char>::empty()
                }) + w);
            }
        }
        i = k;
    }
}

/// The words of `s` (what `str::split_whitespace` yields).
pub fn words_exec(s: &Vec<char>) -> (r: Vec<String>)
    ensures
        r@.map_values(|w: String| w@) == words(s@),
{
    let mut out: Vec<String> = Vec::new();
    let mut i: usize = 0;
    assert(s@.skip(0) =~= s@);
    assert(out@.map_values(|w: String| w@) + words(s@) =~= words(s@));
    loop
        invariant
            i <= s@.len(),
            out@.map_values(|w: String| w@) + words(s@.skip(i as int)) == words(s@),
        decreases s@.len() - i,
    {
        let j = skip_ws(s, i);
        proof {
            let rest = s@.skip(i as int);
            assert forall|k: int| 0 <= k < j - i implies is_ws(#[trigger] rest[k]) by {
                assert(rest[k] == s@[i + k]);
            }
            lemma_words_skip_ws(rest, j - i);
            assert(rest.skip(j - i) =~= s@.skip(j as int));
        }
        if j == s.len() {
            proof {
                assert(s@.skip(j as int).len() == 0);
                assert(trim_start(s@.skip(j as int)).len() == 0);
                assert(words(s@.skip(j as int)).len() == 0);
                assert(out@.map_values(|w: String| w@) + words(s@.skip(j as int)) =~= out@.map_values(
                    |w: String| w@,
                ));
            }
            return out;
        }
        let mut k = j;
        while k < s.len() && !is_ws_exec(s[k])
            invariant
                j <= k <= s@.len(),
                forall|m: int| j <= m < k ==> !is_ws(#[trigger] s@[m]),
            decreases s.len() - k,
        {
            k += 1;
        }
        let ghost rest = s@.skip(j as int);
        let ghost w = s@.subrange(j as int, k as int);
        proof {
            assert forall|m: int| 0 <= m < k - j implies !is_ws(#[trigger] rest[m]) by {
                assert(rest[m] == s@[j + m]);
            }
            if k < s@.len() {
                assert(rest[k - j] == s@[k as int]);
            }
            lemma_words_cons(rest, k - j);
            assert(rest.take(k - j) =~= w);
            assert(rest.skip(k - j) =~= s@.skip(k as int));
        }
        let ghost before = out@.map_values(|w: String| w@);
        let word = string_of_range(s, j, k);
        out.push(word);
        proof {
            assert(out@.map_values(|w: String| w@) =~= before.push(w));
            assert(before.push(w) + words(s@.skip(k as int)) =~= before + (seq![w] + words(
                s@.skip(k as int),
            )));
        }
        i = k;
    }
}

/// A copy of `v[from..to]`.
pub fn slice_vec(v: &Vec<char>, from: usize, to: usize) -> (r: Vec<char>)
    requires
        from <= to <= v@.len(),
    ensures
        r@ == v@.subrange(from as int, to as int),
{
    let mut r: Vec<char> = Vec::new();
    let mut i = from;
    while i < to
        invariant
            from <= i <= to <= v@.len(),
            r@ == v@.subrange(from as int, i as int),
        decreases to - i,
    {
        r.push(v[i]);
        i += 1;
        assert(r@ =~= v@.subrange(from as int, i as int));
    }
    r
}

/// The first balanced block `open ... close` of `s` at or after `pos`: its
/// start and the index just past its closing pattern.
pub open spec fn block_at(s: Seq<char>, open: Seq<char>, close: Seq<char>, pos: int) -> Option<
    (int, int),
> {
    match find_from(s, open, pos) {
        None => None,
        Some(st) => match find_from(s, close, st) {
            None => None,
            Some(e) => Some((st, e + close.len())),
        },
    }
}

/// The successive blocks `open ... close` of `s` from `pos` on: each starts at
/// the next `open` and ends with the first `close` after it; the scan stops at
/// the first `open` that has no `close` after it.
pub open spec fn blocks_from(s: Seq<char>, open: Seq<char>, close: Seq<char>, pos: int) -> Seq<
    Seq<char>,
>
    decreases s.len() - pos,
{
    if close.len() == 0 || pos < 0 || pos > s.len() {
        seq![]
    } else {
        match block_at(s, open, close, pos) {
            None => seq![],
            Some((st, en)) => {
                proof {
                    lemma_find_from_spec(s, open, pos);
                    lemma_find_from_spec(s, close, st);
                }
                seq![s.subrange(st, en)] + blocks_from(s, open, close, en)
            },
        }
    }
}

/// The next block `open ... close` of `s` at or after `pos`.
pub fn block_at_exec(s: &Vec<char>, open: &Vec<char>, close: &Vec<char>, pos: usize) -> (r: Option<
    (usize, usize),
>)
    requires
        close@.len() > 0,
    ensures
        r matches Some((a, b)) ==> block_at(s@, open@, close@, pos as int) == Some(
            (a as int, b as int),
        ) && pos <= a < b <= s@.len(),
        r is None ==> block_at(s@, open@, close@, pos as int) is None,
{
    match find_from_exec(s, open, pos) {
        None => None,
        Some(st) => {
            proof {
                lemma_find_from_spec(s@, open@, pos as int);
            }
            match find_from_exec(s, close, st) {
                None => None,
                Some(e) => {
                    proof {
                        lemma_find_from_spec(s@, close@, st as int);
                        assert(matches_at(s@, close@, e as int));
                        assert(e + close@.len() <= s@.len());
                    }
                    let n = s.len();
                    let c = close.len();
                    assert(e + c <= n);
                    Some((st, e + c))
                },
            }
        },
    }
}

/// The successive blocks `open ... close` of `s`.
pub fn blocks_exec(s: &Vec<char>, open: &Vec<char>, close: &Vec<char>) -> (r: Vec<Vec<char>>)
    requires
        close@.len() > 0,
    ensures
        r@.map_values(|b: Vec<char>| b@) == blocks_from(s@, open@, close@, 0),
{
    let mut out: Vec<Vec<char>> = Vec::new();
    let mut pos: usize = 0;
    loop
        invariant
            close@.len() > 0,
            pos <= s@.len(),
            out@.map_values(|b: Vec<char>| b@) + blocks_from(s@, open@, close@, pos as int)
                == blocks_from(s@, open@, close@, 0),
        decreases s@.len() - pos,
    {
        match block_at_exec(s, open, close, pos) {
            None => {
                proof {
                    assert(blocks_from(s@, open@, close@, pos as int) =~= Seq::<Seq<char>>::empty());
                    assert(out@.map_values(|b: Vec<char>| b@) + Seq::<Seq<char>>::empty()
                        =~= out@.map_values(|b: Vec<char>| b@));
                }
                return out;
            },
            Some((a, b)) => {
                let block = slice_vec(s, a, b);
                let ghost before = out@.map_values(|b: Vec<char>| b@);
                out.push(block);
                proof {
                    assert(out@.map_values(|b: Vec<char>| b@) =~= before.push(s@.subrange(a as int, b as int)));
                    assert(blocks_from(s@, open@, close@, pos as int) == seq![s@.subrange(a as int, b as int)]
                        + blocks_from(s@, open@, close@, b as int));
                    assert(before.push(s@.subrange(a as int, b as int)) + blocks_from(s@, open@, close@, b as int)
                        =~= before + (seq![s@.subrange(a as int, b as int)] + blocks_from(s@, open@, close@, b as int)));
                }
                pos = b;
            },
        }
    }
}

/// The parts joined with `sep` between neighbours.
pub fn join_strings(parts: &Vec<String>, sep: &str) -> (r: String)
    ensures
        r@ == join(parts@.map_values(|s: String| s@), sep@),
{
    let ghost all = parts@.map_values(|s: String| s@);
    let mut out = String::new();
    if parts.len() == 0 {
        return out;
    }
    let mut i: usize = parts.len();
    // Build from the back: out == join(all.skip(i)).
    i = i - 1;
    push_str(&mut out, parts[i].as_str());
    proof {
        assert(all.skip(i as int).len() == 1);
        assert(out@ =~= join(all.skip(i as int), sep@));
    }
    while i > 0
        invariant
            0 <= i < parts@.len(),
            all == parts@.map_values(|s: String| s@),
            out@ == join(all.skip(i as int), sep@),
        decreases i,
    {
        i = i - 1;
        let mut piece = String::new();
        push_str(&mut piece, parts[i].as_str());
        push_str(&mut piece, sep);
        let tail = chars_of(out.as_str());
        push_all(&mut piece, &tail);
        proof {
            let s = all.skip(i as int);
            assert(s.len() >= 2);
            assert(s[0] == parts@[i as int]@);
            assert(s.drop_first() =~= all.skip(i + 1));
        }
        out = piece;
    }
    assert(all.skip(0) =~= all);
    out
}

// ---------------------------------------------------------------------------
// Decimal numbers.
// ---------------------------------------------------------------------------

pub open spec fn digit_char(d: nat) -> char {
    ((d + 0x30) as u32) as char
}

/// The decimal digits of `n`, without leading zeros (`0` is "0").
pub open spec fn decimal(n: nat) -> Seq<char>
    decreases n,
{
    if n < 10 {
        seq![digit_char(n)]
    } else {
        decimal(n / 10) + seq![digit_char(n % 10)]
    }
}

/// The decimal text of a signed integer, with `-` for negatives.
pub open spec fn signed_decimal(n: int) -> Seq<char> {
    if n < 0 {
        seq!['-'] + decimal((-n) as nat)
    } else {
        decimal(n as nat)
    }
}

/// The decimal text of `n`.
pub fn u64_to_string(n: u64) -> (r: String)
    ensures
        r@ == decimal(n as nat),
{
    let mut digits: Vec<char> = Vec::new();
    let mut m = n;
    // Collect digits least significant first.
    loop
        invariant_except_break
            decimal(n as nat) == decimal(m as nat) + digits@.reverse(),
        ensures
            decimal(n as nat) == digits@.reverse(),
        decreases m,
    {
        let d = m % 10;
        digits.push(char_from_ascii((d + 0x30) as u8));
        proof {
            let ghost old_digits = digits@.drop_last();
            assert(digits@.reverse() =~= seq![digit_char(d as nat)] + old_digits.reverse());
        }
        if m < 10 {
            proof {
                assert(decimal(m as nat) == seq![digit_char(m as nat)]);
                assert(decimal(n as nat) =~= digits@.reverse());
            }
            break;
        }
        proof {
            assert(decimal(m as nat) == decimal((m / 10) as nat) + seq![digit_char((m % 10) as nat)]);
            assert(decimal(n as nat) =~= decimal((m / 10) as nat) + digits@.reverse());
        }
        m = m / 10;
    }
    let mut out = String::new();
    let mut i = digits.len();
    while i > 0
        invariant
            i <= digits@.len(),
            out@ == digits@.reverse().take((digits@.len() - i) as int),
            decimal(n as nat) == digits@.reverse(),
        decreases i,
    {
        i -= 1;
        out.push(digits[i]);
        assert(out@ =~= digits@.reverse().take((digits@.len() - i) as int));
    }
    assert(digits@.reverse().take(digits@.len() as int) =~= digits@.reverse());
    out
}

/// The decimal text of a signed integer.
pub fn i64_to_string(n: i64) -> (r: String)
    ensures
        r@ == signed_decimal(n as int),
{
    if n < 0 {
        let magnitude: u64 = if n == i64::MIN {
            9223372036854775808u64
        } else {
            (-n) as u64
        };
        let digits = u64_to_string(magnitude);
        let mut out = String::new();
        out.push('-');
        push_str(&mut out, digits.as_str());
        assert(out@ =~= seq!['-'] + decimal(magnitude as nat));
        out
    } else {
        u64_to_string(n as u64)
    }
}

// ---------------------------------------------------------------------------
// ASCII case folding.
// ---------------------------------------------------------------------------

pub open spec fn ascii_lower_char(c: char) -> char {
    if 'A' <= c <= 'Z' {
        ((c as u32) + 32) as char
    } else {
        c
    }
}

/// `s` with ASCII letters lowered (what `str::to_ascii_lowercase` gives).
pub open spec fn ascii_lower(s: Seq<char>) -> Seq<char> {
    s.map_values(|c: char| ascii_lower_char(c))
}

pub fn ascii_lower_char_exec(c: char) -> (r: char)
    ensures
        r == ascii_lower_char(c),
{
    if 'A' <= c && c <= 'Z' {
        let u = (c as u32) + 32;
        assert(0x61 <= u <= 0x7a);
        char_from_ascii(u as u8)
    } else {
        c
    }
}

/// The character of an ASCII code.
pub fn char_from_ascii(b: u8) -> (r: char)
    requires
        b < 128,
    ensures
        r == (b as u32) as char,
        r as u32 == b as u32,
{
    b as char
}

/// `s` with ASCII letters lowered.
pub fn ascii_lower_exec(s: &Vec<char>) -> (r: Vec<char>)
    ensures
        r@ == ascii_lower(s@),
        r@.len() == s@.len(),
{
    let mut r: Vec<char> = Vec::new();
    let mut i: usize = 0;
    while i < s.len()
        invariant
            0 <= i <= s@.len(),
            r@ == s@.take(i as int).map_values(|c: char| ascii_lower_char(c)),
        decreases s.len() - i,
    {
        r.push(ascii_lower_char_exec(s[i]));
        i += 1;
        assert(s@.take(i as int).map_values(|c: char| ascii_lower_char(c)) =~= s@.take(
            (i - 1) as int,
        ).map_values(|c: char| ascii_lower_char(c)).push(ascii_lower_char(s@[i - 1])));
    }
    assert(s@.take(s@.len() as int) =~= s@);
    r
}

/// ASCII-case-insensitive equality (what `str::eq_ignore_ascii_case` tests).
pub fn eq_ignore_ascii_case(a: &str, b: &str) -> (r: bool)
    ensures
        r == (ascii_lower(a@) == ascii_lower(b@)),
{
    let x = ascii_lower_exec(&chars_of(a));
    let y = ascii_lower_exec(&chars_of(b));
    seq_eq(&x, &y)
}

/// The full Unicode lower-case form of `s`, as `str::to_lowercase` computes
/// it (context-dependent mappings included).
pub uninterp spec fn unicode_lower(s: Seq<char>) -> Seq<char>;

/// `str::to_lowercase`. Its result is taken to depend on the text alone; the
/// Unicode mapping itself is not restated here.
#[verifier::external_body]
pub(crate) fn to_lowercase(s: &str) -> (r: String)
    ensures
        r@ == unicode_lower(s@),
{
    s.to_lowercase()
}

// ---------------------------------------------------------------------------
// Integer parsing and debug quoting.
// ---------------------------------------------------------------------------

pub open spec fn is_digit(c: char) -> bool {
    '0' <= c <= '9'
}

/// The number a run of decimal digits spells.
pub open spec fn digits_value(d: Seq<char>) -> int
    decreases d.len(),
{
    if d.len() == 0 {
        0
    } else {
        10 * digits_value(d.drop_last()) + (d.last() as int - 48)
    }
}

/// An optional `-` or `+` sign and the rest.
pub open spec fn sign_split(s: Seq<char>) -> (bool, Seq<char>) {
    if s.len() > 0 && s[0] == '-' {
        (true, s.skip(1))
    } else if s.len() > 0 && s[0] == '+' {
        (false, s.skip(1))
    } else {
        (false, s)
    }
}

/// The integer `s` writes: an optional sign and one or more decimal digits,
/// nothing else (the text `str::parse` accepts for an integer type).
pub open spec fn parse_int(s: Seq<char>) -> Option<int> {
    let (neg, d) = sign_split(s);
    if d.len() > 0 && forall|i: int| 0 <= i < d.len() ==> is_digit(#[trigger] d[i]) {
        Some(
            if neg {
                -digits_value(d)
            } else {
                digits_value(d)
            },
        )
    } else {
        None
    }
}

/// What `s.parse::<i64>()` gives: the integer when `s` writes one in range.
pub open spec fn parsed_i64(s: Seq<char>) -> Option<i64> {
    match parse_int(s) {
        Some(v) => if i64::MIN <= v <= i64::MAX {
            Some(v as i64)
        } else {
            None
        },
        None => None,
    }
}

proof fn lemma_digits_value_nonneg(d: Seq<char>)
    requires
        forall|i: int| 0 <= i < d.len() ==> is_digit(#[trigger] d[i]),
    ensures
        digits_value(d) >= 0,
    decreases d.len(),
{
    if d.len() > 0 {
        assert(is_digit(d[d.len() - 1]));
        lemma_digits_value_nonneg(d.drop_last());
    }
}

/// Parses a signed 64-bit integer as `str::parse::<i64>` does.
pub fn parse_i64(s: &str) -> (r: Option<i64>)
    ensures
        r == parsed_i64(s@),
{
    let v = chars_of(s);
    let neg = v.len() > 0 && v[0] == '-';
    let start: usize = if v.len() > 0 && (v[0] == '-' || v[0] == '+') {
        1
    } else {
        0
    };
    let ghost d = sign_split(v@).1;
    assert(d =~= v@.skip(start as int));
    assert(sign_split(v@).0 == neg);
    if start == v.len() {
        return None;
    }
    let mut acc: u64 = 0;
    let mut big = false;
    let mut i = start;
    while i < v.len()
        invariant
            start <= i <= v@.len(),
            v@ == s@,
            d == sign_split(v@).1,
            d == v@.skip(start as int),
            forall|k: int| 0 <= k < i - start ==> is_digit(#[trigger] d[k]),
            big ==> digits_value(d.take(i - start)) > u64::MAX,
            !big ==> acc == digits_value(d.take(i - start)),
        decreases v.len() - i,
    {
        let c = v[i];
        assert(d[i - start] == c);
        if !('0' <= c && c <= '9') {
            assert(!is_digit(d[i - start]));
            return None;
        }
        let dgt = (c as u32 - 48) as u64;
        assert(d.take(i - start + 1).drop_last() =~= d.take(i - start));
        assert(d.take(i - start + 1).last() == c);
        let ghost prev = digits_value(d.take(i - start));
        if !big {
            if acc > (u64::MAX - dgt) / 10 {
                assert(10 * acc + dgt > u64::MAX) by (nonlinear_arith)
                    requires
                        acc > (u64::MAX - dgt) / 10,
                        dgt <= 9,
                ;
                big = true;
            } else {
                assert(10 * acc + dgt <= u64::MAX) by (nonlinear_arith)
                    requires
                        acc <= (u64::MAX - dgt) / 10,
                        dgt <= 9,
                ;
                acc = acc * 10 + dgt;
            }
        } else {
            proof {
                lemma_digits_value_nonneg(d.take(i - start));
            }
        }
        i += 1;
    }
    assert(d.take(v@.len() - start) =~= d);
    proof {
        lemma_digits_value_nonneg(d);
    }
    if big {
        return None;
    }
    if neg {
        if acc <= 9223372036854775808u64 {
            if acc == 9223372036854775808u64 {
                Some(i64::MIN)
            } else {
                Some(-(acc as i64))
            }
        } else {
            None
        }
    } else if acc <= 9223372036854775807u64 {
        Some(acc as i64)
    } else {
        None
    }
}

/// The text `format!("{:?}", s)` gives for a string: quoted, with quotes,
/// backslashes and non-printable characters escaped.
pub uninterp spec fn debug_text(s: Seq<char>) -> Seq<char>;

/// `<str as Debug>::fmt`, through `format!`. Taken to depend on the text
/// alone; the escaping rules are not restated here.
#[verifier::external_body]
pub(crate) fn debug_quote(s: &str) -> (r: String)
    ensures
        r@ == debug_text(s@),
{
    format!("{s:?}")
}

/// The number of bytes a character takes in UTF-8.
pub open spec fn char_utf8_len(c: char) -> nat {
    if (c as u32) < 0x80 {
        1
    } else if (c as u32) < 0x800 {
        2
    } else if (c as u32) < 0x10000 {
        3
    } else {
        4
    }
}

/// The number of bytes a text takes in UTF-8 (`str::len`).
pub open spec fn utf8_len(s: Seq<char>) -> nat
    decreases s.len(),
{
    if s.len() == 0 {
        0
    } else {
        utf8_len(s.drop_last()) + char_utf8_len(s.last())
    }
}

/// Whether a text takes at least `n` bytes in UTF-8.
pub fn utf8_len_at_least(s: &str, n: usize) -> (r: bool)
    ensures
        r == (utf8_len(s@) >= n),
{
    if n == 0 {
        return true;
    }
    let v = chars_of(s);
    let mut total: usize = 0;
    let mut i: usize = 0;
    while i < v.len()
        invariant
            i <= v@.len(),
            v@ == s@,
            total == utf8_len(v@.take(i as int)),
            total < n,
        decreases v.len() - i,
    {
        assert(v@.take(i + 1).drop_last() =~= v@.take(i as int));
        let c = v[i] as u32;
        let w: usize = if c < 0x80 {
            1
        } else if c < 0x800 {
            2
        } else if c < 0x10000 {
            3
        } else {
            4
        };
        if w >= n - total {
            proof {
                lemma_utf8_len_prefix(v@, i + 1);
            }
            return true;
        }
        total = total + w;
        i += 1;
    }
    assert(v@.take(v@.len() as int) =~= v@);
    false
}

proof fn lemma_utf8_len_prefix(s: Seq<char>, i: int)
    requires
        0 <= i <= s.len(),
    ensures
        utf8_len(s.take(i)) <= utf8_len(s),
    decreases s.len() - i,
{
    if i < s.len() {
        assert(s.take(i + 1).drop_last() =~= s.take(i));
        lemma_utf8_len_prefix(s, i + 1);
    } else {
        assert(s.take(i) =~= s);
    }
}

} // verus!
