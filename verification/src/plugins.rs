//! Plugin commands: `zotron <name>` that matches no built-in subcommand goes to
//! a `zotron-<name>` binary; when there is none, the error carries "did you
//! mean?" suggestions ranked by edit distance over the built-in names.

use vstd::prelude::*;
use vstd::relations::*;
use crate::order::{lex_le, lex_le_exec, lemma_lex_antisymmetric, lemma_lex_reflexive, lemma_lex_total, lemma_lex_transitive};
use crate::text::{str_eq, chars_of, join, join_strings, push_all, push_str, starts_with, starts_with_exec, string_of, trim, trim_exec};
use crate::http::message;
use crate::cli::items::{str_or, str_or_exec};
use crate::json::{
    find_member, json_parse, lemma_key_index, lemma_members_get_index, members_get, members_view,
    obj1, object_of, parse_json, push_member, set_member, with_member, Json, JsonV, NumberV,
};

verus! {

/// Built-in top-level subcommand names.
pub const BUILTIN_COMMANDS: [&'static str; 16] = [
    "ping",
    "rpc",
    "push",
    "system",
    "search",
    "items",
    "collections",
    "notes",
    "settings",
    "tags",
    "export",
    "annotations",
    "ocr",
    "rag",
    "sources",
    "help",
];

pub open spec fn min2(x: nat, y: nat) -> nat {
    if x <= y {
        x
    } else {
        y
    }
}

/// Levenshtein distance: the fewest single-character insertions, deletions
/// and substitutions that turn `a` into `b`.
pub open spec fn edit_distance(a: Seq<char>, b: Seq<char>) -> nat
    decreases a.len() + b.len(),
{
    if a.len() == 0 {
        b.len()
    } else if b.len() == 0 {
        a.len()
    } else {
        min2(
            min2(edit_distance(a.drop_last(), b) + 1, edit_distance(a, b.drop_last()) + 1),
            edit_distance(a.drop_last(), b.drop_last()) + if a.last() == b.last() {
                0nat
            } else {
                1nat
            },
        )
    }
}

/// The distance never exceeds the longer length.
pub proof fn lemma_edit_distance_bound(a: Seq<char>, b: Seq<char>)
    ensures
        edit_distance(a, b) <= if a.len() >= b.len() {
            a.len()
        } else {
            b.len()
        },
    decreases a.len() + b.len(),
{
    if a.len() > 0 && b.len() > 0 {
        lemma_edit_distance_bound(a.drop_last(), b.drop_last());
    }
}

/// Levenshtein distance between two character vectors, by the two-row
/// dynamic programme.
pub fn edit_distance_exec(a: &Vec<char>, b: &Vec<char>) -> (r: usize)
    requires
        a@.len() < usize::MAX,
        b@.len() < usize::MAX,
    ensures
        r == edit_distance(a@, b@),
{
    if a.len() == 0 {
        return b.len();
    }
    if b.len() == 0 {
        return a.len();
    }
    let n = b.len();
    let mut prev: Vec<usize> = Vec::new();
    let mut j: usize = 0;
    while j <= n
        invariant
            n == b@.len(),
            n < usize::MAX,
            j <= n + 1,
            prev@.len() == j,
            forall|k: int| 0 <= k < j ==> prev@[k] == edit_distance(a@.take(0), b@.take(k)),
        decreases n + 1 - j,
    {
        assert(a@.take(0).len() == 0);
        prev.push(j);
        j += 1;
    }
    let mut i: usize = 0;
    while i < a.len()
        invariant
            n == b@.len(),
            n < usize::MAX,
            a@.len() < usize::MAX,
            i <= a@.len(),
            prev@.len() == n + 1,
            forall|k: int|
                0 <= k <= n ==> #[trigger] prev@[k] == edit_distance(a@.take(i as int), b@.take(k)),
        decreases a@.len() - i,
    {
        let mut curr: Vec<usize> = Vec::new();
        curr.push(i + 1);
        let ghost ai = a@.take(i as int);
        let ghost ai1 = a@.take(i + 1);
        proof {
            assert(ai1.drop_last() =~= ai);
            assert(ai1.last() == a@[i as int]);
            assert(b@.take(0).len() == 0);
        }
        let ca = a[i];
        let mut j: usize = 0;
        while j < n
            invariant
                n == b@.len(),
                n < usize::MAX,
                a@.len() < usize::MAX,
                i < a@.len(),
                ca == a@[i as int],
                ai == a@.take(i as int),
                ai1 == a@.take(i + 1),
                ai1.drop_last() == ai,
                ai1.last() == ca,
                j <= n,
                prev@.len() == n + 1,
                curr@.len() == j + 1,
                forall|k: int| 0 <= k <= n ==> #[trigger] prev@[k] == edit_distance(ai, b@.take(k)),
                forall|k: int| 0 <= k <= j ==> #[trigger] curr@[k] == edit_distance(ai1, b@.take(k)),
            decreases n - j,
        {
            let cb = b[j];
            let cost: usize = if ca != cb {
                1
            } else {
                0
            };
            proof {
                lemma_edit_distance_bound(ai, b@.take(j + 1));
                lemma_edit_distance_bound(ai1, b@.take(j as int));
                lemma_edit_distance_bound(ai, b@.take(j as int));
                assert(prev@[j + 1] == edit_distance(ai, b@.take(j + 1)));
                assert(prev@[j as int] == edit_distance(ai, b@.take(j as int)));
                assert(curr@[j as int] == edit_distance(ai1, b@.take(j as int)));
            }
            let del = prev[j + 1] + 1;
            let ins = curr[j] + 1;
            let sub = prev[j] + cost;
            let best = if del <= ins {
                del
            } else {
                ins
            };
            let best = if best <= sub {
                best
            } else {
                sub
            };
            proof {
                let bj1 = b@.take(j + 1);
                assert(bj1.drop_last() =~= b@.take(j as int));
                assert(bj1.last() == cb);
                assert(ai1.len() > 0 && bj1.len() > 0);
                assert(best == edit_distance(ai1, bj1));
            }
            curr.push(best);
            j += 1;
        }
        prev = curr;
        i += 1;
    }
    proof {
        assert(a@.take(a@.len() as int) =~= a@);
        assert(b@.take(n as int) =~= b@);
    }
    prev[n]
}

/// Levenshtein edit distance over Unicode scalar values.
pub fn levenshtein(a: &str, b: &str) -> (r: usize)
    requires
        a@.len() < usize::MAX,
        b@.len() < usize::MAX,
    ensures
        r == edit_distance(a@, b@),
{
    let x = chars_of(a);
    let y = chars_of(b);
    edit_distance_exec(&x, &y)
}

/// Number of UTF-8 bytes of `s`, as `str::len` reports it.
pub open spec fn byte_len(s: Seq<char>) -> nat {
    (vstd::utf8::encode_utf8(s).len() as usize) as nat
}

/// A candidate is close when its distance is at most a third of the longer
/// byte length, and at least 1.
pub open spec fn threshold(a: nat, b: nat) -> nat {
    let m = if a >= b {
        a
    } else {
        b
    } / 3;
    if m < 1 {
        1
    } else {
        m
    }
}

pub open spec fn is_close(input: Seq<char>, c: Seq<char>) -> bool {
    edit_distance(input, c) <= threshold(byte_len(input), byte_len(c))
}

/// The close candidates, in candidate order, each with its distance.
pub open spec fn close_candidates(input: Seq<char>, cands: Seq<Seq<char>>) -> Seq<(nat, Seq<char>)>
    decreases cands.len(),
{
    if cands.len() == 0 {
        seq![]
    } else {
        let rest = close_candidates(input, cands.drop_last());
        let c = cands.last();
        if is_close(input, c) {
            rest.push((edit_distance(input, c), c))
        } else {
            rest
        }
    }
}

/// Ranking: smaller distance first, then name order.
pub open spec fn rank_le(x: (nat, Seq<char>), y: (nat, Seq<char>)) -> bool {
    x.0 < y.0 || (x.0 == y.0 && lex_le(x.1, y.1))
}

/// The suggested names for `input` among `cands`, ranked.
pub open spec fn suggestions(input: Seq<char>, cands: Seq<Seq<char>>) -> Seq<Seq<char>> {
    close_candidates(input, cands).sort_by(|x: (nat, Seq<char>), y: (nat, Seq<char>)| rank_le(x, y)).map_values(
        |p: (nat, Seq<char>)| p.1,
    )
}

pub proof fn lemma_rank_total_ordering()
    ensures
        total_ordering(|x: (nat, Seq<char>), y: (nat, Seq<char>)| rank_le(x, y)),
{
    let le = |x: (nat, Seq<char>), y: (nat, Seq<char>)| rank_le(x, y);
    assert forall|x: (nat, Seq<char>)| #[trigger] le(x, x) by {
        lemma_lex_reflexive(x.1);
    }
    assert forall|x: (nat, Seq<char>), y: (nat, Seq<char>)| #[trigger] le(x, y) && #[trigger] le(
        y,
        x,
    ) implies x == y by {
        lemma_lex_antisymmetric(x.1, y.1);
    }
    assert forall|x: (nat, Seq<char>), y: (nat, Seq<char>), z: (nat, Seq<char>)| #[trigger]
        le(x, y) && #[trigger] le(y, z) implies le(x, z) by {
        if x.0 == y.0 && y.0 == z.0 {
            lemma_lex_transitive(x.1, y.1, z.1);
        }
    }
    assert forall|x: (nat, Seq<char>), y: (nat, Seq<char>)| #[trigger] le(x, y) || #[trigger] le(
        y,
        x,
    ) by {
        lemma_lex_total(x.1, y.1);
    }
}

pub open spec fn entry_view(e: (usize, Vec<char>)) -> (nat, Seq<char>) {
    (e.0 as nat, e.1@)
}

/// Built-in command names close to `input`, ranked by edit distance and then
/// by name.
pub fn fuzzy_suggestions(input: &str, candidates: &[&str]) -> (r: Vec<String>)
    requires
        input@.len() < usize::MAX,
        forall|k: int| 0 <= k < candidates@.len() ==> (#[trigger] candidates@[k])@.len() < usize::MAX,
    ensures
        r@.map_values(|s: String| s@) == suggestions(
            input@,
            candidates@.map_values(|c: &str| c@),
        ),
{
    let ghost cands = candidates@.map_values(|c: &str| c@);
    let ghost le = |x: (nat, Seq<char>), y: (nat, Seq<char>)| rank_le(x, y);
    proof {
        lemma_rank_total_ordering();
    }
    let ichars = chars_of(input);
    let ilen = input.len();
    let mut ranked: Vec<(usize, Vec<char>)> = Vec::new();
    let mut idx: usize = 0;
    proof {
        assert(cands.take(0).len() == 0);
        assert(ranked@.map_values(|e: (usize, Vec<char>)| entry_view(e)) =~= Seq::<
            (nat, Seq<char>),
        >::empty());
    }
    while idx < candidates.len()
        invariant
            idx <= candidates@.len(),
            ichars@ == input@,
            ilen == byte_len(input@),
            input@.len() < usize::MAX,
            cands == candidates@.map_values(|c: &str| c@),
            forall|k: int| 0 <= k < candidates@.len() ==> (#[trigger] candidates@[k])@.len() < usize::MAX,
            total_ordering(le),
            le == (|x: (nat, Seq<char>), y: (nat, Seq<char>)| rank_le(x, y)),
            sorted_by(ranked@.map_values(|e: (usize, Vec<char>)| entry_view(e)), le),
            ranked@.map_values(|e: (usize, Vec<char>)| entry_view(e)).to_multiset()
                == close_candidates(input@, cands.take(idx as int)).to_multiset(),
        decreases candidates.len() - idx,
    {
        let c = candidates[idx];
        let cchars = chars_of(c);
        let d = edit_distance_exec(&ichars, &cchars);
        let clen = c.len();
        let longer = if ilen >= clen {
            ilen
        } else {
            clen
        };
        let third = longer / 3;
        let thr = if third < 1 {
            1
        } else {
            third
        };
        let ghost before = ranked@.map_values(|e: (usize, Vec<char>)| entry_view(e));
        proof {
            assert(cands.take(idx + 1).drop_last() =~= cands.take(idx as int));
            assert(cands.take(idx + 1).last() == c@);
            assert(is_close(input@, c@) == (d <= thr));
        }
        if d <= thr {
            let ghost item = (d as nat, c@);
            // First position whose entry ranks strictly after the new one.
            let mut p: usize = 0;
            loop
                invariant
                    p <= ranked@.len(),
                    before == ranked@.map_values(|e: (usize, Vec<char>)| entry_view(e)),
                    cchars@ == c@,
                    item == (d as nat, c@),
                    forall|k: int| 0 <= k < p ==> rank_le(#[trigger] before[k], item),
                ensures
                    p <= ranked@.len(),
                    before == ranked@.map_values(|e: (usize, Vec<char>)| entry_view(e)),
                    forall|k: int| 0 <= k < p ==> rank_le(#[trigger] before[k], item),
                    p < ranked@.len() ==> rank_le(item, before[p as int]),
                decreases ranked.len() - p,
            {
                if p == ranked.len() {
                    break;
                }
                let pd = ranked[p].0;
                let name_le = lex_le_exec(&ranked[p].1, &cchars);
                proof {
                    assert(before[p as int] == entry_view(ranked@[p as int]));
                }
                if pd > d || (pd == d && !name_le) {
                    proof {
                        lemma_lex_total(c@, before[p as int].1);
                        assert(rank_le(item, before[p as int]));
                    }
                    break;
                }
                p += 1;
            }
            ranked.insert(p, (d, cchars));
            proof {
                let after = ranked@.map_values(|e: (usize, Vec<char>)| entry_view(e));
                assert(after =~= before.insert(p as int, item));
                assert forall|a: int, b: int| 0 <= a < b < after.len() implies #[trigger] le(
                    after[a],
                    after[b],
                ) by {
                    if b < p {
                        assert(after[a] == before[a] && after[b] == before[b]);
                        assert(le(before[a], before[b]));
                    } else if a < p && b == p {
                        assert(after[a] == before[a] && after[b] == item);
                        assert(rank_le(before[a], item));
                    } else if a < p && b > p {
                        assert(after[a] == before[a] && after[b] == before[b - 1]);
                        assert(le(before[a], before[b - 1]));
                    } else if a == p {
                        assert(after[a] == item && after[b] == before[b - 1]);
                        assert(le(item, before[p as int]));
                        if b - 1 > p {
                            assert(le(before[p as int], before[b - 1]));
                        }
                    } else {
                        assert(after[a] == before[a - 1]);
                        assert(after[b] == before[b - 1]);
                        assert(le(before[a - 1], before[b - 1]));
                    }
                }
                vstd::seq_lib::to_multiset_insert(before, p as int, item);
                vstd::seq_lib::to_multiset_build(close_candidates(input@, cands.take(idx as int)), item);
            }
        }
        idx += 1;
    }
    let ghost final_entries = ranked@.map_values(|e: (usize, Vec<char>)| entry_view(e));
    proof {
        assert(cands.take(candidates@.len() as int) =~= cands);
        let all = close_candidates(input@, cands);
        all.lemma_sort_by_ensures(le);
        vstd::seq_lib::lemma_sorted_unique(final_entries, all.sort_by(le), le);
    }
    let mut out: Vec<String> = Vec::new();
    let mut k: usize = 0;
    while k < ranked.len()
        invariant
            k <= ranked@.len(),
            out@.len() == k,
            forall|m: int| 0 <= m < k ==> (#[trigger] out@[m])@ == ranked@[m].1@,
        decreases ranked.len() - k,
    {
        out.push(string_of(&ranked[k].1));
        k += 1;
    }
    proof {
        assert(out@.map_values(|s: String| s@) =~= final_entries.map_values(
            |p: (nat, Seq<char>)| p.1,
        ));
    }
    out
}

/// The `UNKNOWN_COMMAND` message for a missing plugin, with the close
/// built-in names appended as suggestions.
pub open spec fn unknown_command_message(
    name: Seq<char>,
    binary_name: Seq<char>,
    hints: Seq<Seq<char>>,
) -> Seq<char> {
    let base = "UNKNOWN_COMMAND: unknown command '"@ + name + "'. No plugin '"@ + binary_name
        + "' found on PATH."@;
    if hints.len() == 0 {
        base
    } else {
        base + " Did you mean: "@ + join(hints, ", "@) + "."@
    }
}

/// Builds the `UNKNOWN_COMMAND` error message, appending fuzzy suggestions
/// when the typed name is close to a built-in command.
pub fn unknown_command_error(name: &str, binary_name: &str) -> (r: String)
    requires
        name@.len() < usize::MAX,
    ensures
        r@ == unknown_command_message(
            name@,
            binary_name@,
            suggestions(name@, BUILTIN_COMMANDS@.map_values(|c: &str| c@)),
        ),
{
    let mut message = String::new();
    push_str(&mut message, "UNKNOWN_COMMAND: unknown command '");
    push_str(&mut message, name);
    push_str(&mut message, "'. No plugin '");
    push_str(&mut message, binary_name);
    push_str(&mut message, "' found on PATH.");
    let ghost base = message@;
    let commands = BUILTIN_COMMANDS;
    proof {
        reveal_strlit("ping");
        reveal_strlit("rpc");
        reveal_strlit("push");
        reveal_strlit("system");
        reveal_strlit("search");
        reveal_strlit("items");
        reveal_strlit("collections");
        reveal_strlit("notes");
        reveal_strlit("settings");
        reveal_strlit("tags");
        reveal_strlit("export");
        reveal_strlit("annotations");
        reveal_strlit("ocr");
        reveal_strlit("rag");
        reveal_strlit("sources");
        reveal_strlit("help");
        assert(commands@.len() == 16);
        assert forall|k: int| 0 <= k < commands@.len() implies (#[trigger] commands@[k])@.len()
            < usize::MAX by {
        }
    }
    let hints = fuzzy_suggestions(name, commands.as_slice());
    if hints.len() > 0 {
        push_str(&mut message, " Did you mean: ");
        let joined = join_strings(&hints, ", ");
        push_all(&mut message, &chars_of(joined.as_str()));
        push_str(&mut message, ".");
    }
    message
}

/// The edit distance between two texts is at least the difference of their
/// lengths.
pub proof fn lemma_edit_distance_len_gap(a: Seq<char>, b: Seq<char>)
    ensures
        edit_distance(a, b) >= a.len() - b.len(),
        edit_distance(a, b) >= b.len() - a.len(),
    decreases a.len() + b.len(),
{
    if a.len() > 0 && b.len() > 0 {
        lemma_edit_distance_len_gap(a.drop_last(), b);
        lemma_edit_distance_len_gap(a, b.drop_last());
        lemma_edit_distance_len_gap(a.drop_last(), b.drop_last());
    }
}

/// Edit distance is zero exactly between equal texts.
pub proof fn law_edit_distance_zero_iff_equal(a: Seq<char>, b: Seq<char>)
    ensures
        edit_distance(a, b) == 0 <==> a == b,
    decreases a.len() + b.len(),
{
    if a.len() > 0 && b.len() > 0 {
        law_edit_distance_zero_iff_equal(a.drop_last(), b.drop_last());
        lemma_edit_distance_len_gap(a.drop_last(), b);
        lemma_edit_distance_len_gap(a, b.drop_last());
        if a == b {
            assert(a.drop_last() == b.drop_last());
        }
        if edit_distance(a, b) == 0 {
            assert(edit_distance(a.drop_last(), b.drop_last()) == 0);
            assert(a.last() == b.last());
            assert(a =~= a.drop_last().push(a.last()));
            assert(b =~= b.drop_last().push(b.last()));
        }
    } else if a.len() == 0 && b.len() == 0 {
        assert(a =~= b);
    } else if a.len() == 0 {
        assert(a != b);
    } else {
        assert(a != b);
    }
}

/// Edit distance is symmetric.
pub proof fn law_edit_distance_symmetric(a: Seq<char>, b: Seq<char>)
    ensures
        edit_distance(a, b) == edit_distance(b, a),
    decreases a.len() + b.len(),
{
    if a.len() > 0 && b.len() > 0 {
        law_edit_distance_symmetric(a.drop_last(), b);
        law_edit_distance_symmetric(a, b.drop_last());
        law_edit_distance_symmetric(a.drop_last(), b.drop_last());
    }
}

/// Dropping the last character of `a` moves the distance to `b` by at most
/// one.
proof fn lemma_edit_distance_drop_last(a: Seq<char>, b: Seq<char>)
    requires
        a.len() > 0,
    ensures
        edit_distance(a.drop_last(), b) <= edit_distance(a, b) + 1,
    decreases a.len() + b.len(),
{
    let aa = a.drop_last();
    if b.len() == 0 {
    } else if aa.len() == 0 {
        lemma_edit_distance_len_gap(a, b);
    } else {
        let bb = b.drop_last();
        lemma_edit_distance_drop_last(a, bb);
    }
}

/// Edit distance obeys the triangle inequality.
pub proof fn law_edit_distance_triangle(a: Seq<char>, c: Seq<char>, b: Seq<char>)
    ensures
        edit_distance(a, b) <= edit_distance(a, c) + edit_distance(c, b),
    decreases a.len() + b.len() + c.len(),
{
    if c.len() == 0 {
        lemma_edit_distance_bound(a, b);
    } else if a.len() == 0 {
        lemma_edit_distance_len_gap(c, b);
    } else if b.len() == 0 {
        lemma_edit_distance_len_gap(a, c);
    } else {
        let aa = a.drop_last();
        let bb = b.drop_last();
        let cc = c.drop_last();
        law_edit_distance_triangle(aa, c, b);
        law_edit_distance_triangle(a, c, bb);
        law_edit_distance_triangle(a, cc, b);
        law_edit_distance_triangle(aa, cc, b);
        law_edit_distance_triangle(aa, cc, bb);
        lemma_edit_distance_drop_last(c, b);
    }
}

proof fn lemma_close_candidates_close(input: Seq<char>, cands: Seq<Seq<char>>)
    ensures
        forall|i: int|
            0 <= i < close_candidates(input, cands).len() ==> is_close(
                input,
                #[trigger] close_candidates(input, cands)[i].1,
            ) && close_candidates(input, cands)[i].0 == edit_distance(
                input,
                close_candidates(input, cands)[i].1,
            ) && cands.contains(close_candidates(input, cands)[i].1),
    decreases cands.len(),
{
    if cands.len() > 0 {
        lemma_close_candidates_close(input, cands.drop_last());
        let rest = close_candidates(input, cands.drop_last());
        assert forall|i: int| 0 <= i < rest.len() implies cands.contains(#[trigger] rest[i].1) by {
            let k = choose|k: int| 0 <= k < cands.drop_last().len() && cands.drop_last()[k] == rest[i].1;
            assert(cands[k] == rest[i].1);
        }
        assert(cands[cands.len() - 1] == cands.last());
    }
}

/// Every suggestion is one of the candidates and is close to the input: its
/// distance is within the threshold. Suggestions come closest first.
pub proof fn law_suggestions_are_close_and_ranked(input: Seq<char>, cands: Seq<Seq<char>>)
    ensures
        forall|i: int|
            0 <= i < suggestions(input, cands).len() ==> is_close(
                input,
                #[trigger] suggestions(input, cands)[i],
            ) && cands.contains(suggestions(input, cands)[i]),
        forall|i: int, j: int|
            0 <= i < j < suggestions(input, cands).len() ==> edit_distance(
                input,
                #[trigger] suggestions(input, cands)[i],
            ) <= edit_distance(input, #[trigger] suggestions(input, cands)[j]),
{
    let le = |x: (nat, Seq<char>), y: (nat, Seq<char>)| rank_le(x, y);
    let all = close_candidates(input, cands);
    lemma_rank_total_ordering();
    all.lemma_sort_by_ensures(le);
    let sorted = all.sort_by(le);
    lemma_close_candidates_close(input, cands);
    assert forall|i: int| 0 <= i < sorted.len() implies is_close(input, #[trigger] sorted[i].1)
        && sorted[i].0 == edit_distance(input, sorted[i].1) && cands.contains(sorted[i].1) by {
        assert(sorted.contains(sorted[i]));
        assert(all.contains(sorted[i]));
        let k = choose|k: int| 0 <= k < all.len() && all[k] == sorted[i];
        assert(is_close(input, all[k].1));
    }
    assert forall|i: int, j: int| 0 <= i < j < sorted.len() implies sorted[i].0 <= sorted[j].0 by {
        assert(le(sorted[i], sorted[j]));
    }
}

// ---------------------------------------------------------------------------
// Discovering plugins on PATH.
// ---------------------------------------------------------------------------

/// A directory entry met while scanning the `PATH` directories, in order:
/// its file name, and whether it is a file.
pub struct PathEntry {
    pub name: String,
    pub is_file: bool,
}

/// A plugin binary: a file named `zotron-<name>` with a non-empty name.
pub open spec fn plugin_binary(e: PathEntry) -> bool {
    &&& starts_with(e.name@, "zotron-"@)
    &&& e.name@ != "zotron-"@
    &&& e.is_file
}

/// Entry `i` is a plugin binary and the first on `PATH` with its name.
pub open spec fn first_plugin(es: Seq<PathEntry>, i: int) -> bool {
    &&& 0 <= i < es.len()
    &&& plugin_binary(es[i])
    &&& forall|j: int| 0 <= j < i && plugin_binary(#[trigger] es[j]) ==> es[j].name@ != es[i].name@
}

/// `a` comes strictly before `b`.
pub open spec fn lex_lt(a: Seq<char>, b: Seq<char>) -> bool {
    lex_le(a, b) && a != b
}

/// The plugin binaries to ask for manifests, as indexes into the entries:
/// the first of each name, in order of name.
pub fn plugin_binaries(entries: &Vec<PathEntry>) -> (r: Vec<usize>)
    ensures
        forall|k: int| 0 <= k < r@.len() ==> first_plugin(entries@, #[trigger] r@[k] as int),
        forall|i: int| first_plugin(entries@, i) ==> exists|k: int| 0 <= k < r@.len() && #[trigger] r@[k] == i,
        forall|a: int, b: int|
            0 <= a < b < r@.len() ==> lex_lt(entries@[#[trigger] r@[a] as int].name@, entries@[#[trigger] r@[b] as int].name@),
{
    let es = entries;
    let mut prefix: Vec<char> = Vec::new();
    prefix.push('z');
    prefix.push('o');
    prefix.push('t');
    prefix.push('r');
    prefix.push('o');
    prefix.push('n');
    prefix.push('-');
    proof {
        reveal_strlit("zotron-");
        assert(prefix@ =~= "zotron-"@);
    }
    let mut out: Vec<usize> = Vec::new();
    let mut i: usize = 0;
    while i < es.len()
        invariant
            i <= es@.len(),
            prefix@ == "zotron-"@,
            forall|k: int| 0 <= k < out@.len() ==> (#[trigger] out@[k]) < i && first_plugin(es@, out@[k] as int),
            forall|x: int| 0 <= x < i && first_plugin(es@, x) ==> exists|k: int| 0 <= k < out@.len() && #[trigger] out@[k] == x,
            forall|a: int, b: int|
                0 <= a < b < out@.len() ==> lex_lt(es@[#[trigger] out@[a] as int].name@, es@[#[trigger] out@[b] as int].name@),
        decreases es.len() - i,
    {
        let name = chars_of(es[i].name.as_str());
        let is_plugin = es[i].is_file && starts_with_exec(&name, &prefix) && name.len() != prefix.len();
        proof {
            if starts_with(name@, prefix@) {
                if name@.len() == prefix@.len() {
                    assert(name@ =~= prefix@);
                }
            }
            assert(is_plugin == plugin_binary(es@[i as int]));
        }
        if is_plugin {
            let taken = name_taken(es, &out, &name);
            if taken {
                proof {
                    let q = choose|q: int| 0 <= q < out@.len() && es@[#[trigger] out@[q] as int].name@ == name@;
                    let j = out@[q] as int;
                    assert(first_plugin(es@, j));
                    assert(plugin_binary(es@[j]));
                    assert(!first_plugin(es@, i as int));
                }
            } else {
                proof {
                    assert forall|j: int| 0 <= j < i && plugin_binary(#[trigger] es@[j]) implies es@[j].name@
                        != es@[i as int].name@ by {
                        if es@[j].name@ == es@[i as int].name@ {
                            lemma_earliest_listed(es@, out@, j, i as int);
                        }
                    }
                    assert(first_plugin(es@, i as int));
                }
                let p = insertion_point(es, &out, &name);
                let ghost old_out = out@;
                proof {
                    if p < out@.len() {
                        let pn = es@[out@[p as int] as int].name@;
                        assert(pn != name@);
                    }
                }
                out.insert(p, i);
                proof {
                    lemma_sorted_insert(es@, old_out, out@, p as int, i);
                    assert forall|k: int| 0 <= k < out@.len() implies (#[trigger] out@[k]) < i + 1
                        && first_plugin(es@, out@[k] as int) by {
                        if k < p {
                            assert(out@[k] == old_out[k]);
                        } else if k > p {
                            assert(out@[k] == old_out[k - 1]);
                        }
                    }
                    assert forall|x: int| 0 <= x < i + 1 && first_plugin(es@, x) implies exists|k: int|
                        0 <= k < out@.len() && #[trigger] out@[k] == x by {
                        if x == i {
                            assert(out@[p as int] == x);
                        } else {
                            let k = choose|k: int| 0 <= k < old_out.len() && #[trigger] old_out[k] == x;
                            if k < p {
                                assert(out@[k] == x);
                            } else {
                                assert(out@[k + 1] == x);
                            }
                        }
                    }
                }
            }
        }
        i += 1;
    }
    out
}

/// Whether a binary already listed has the name `name`.
fn name_taken(es: &Vec<PathEntry>, out: &Vec<usize>, name: &Vec<char>) -> (taken: bool)
    requires
        forall|q: int| 0 <= q < out@.len() ==> (#[trigger] out@[q]) < es@.len(),
    ensures
        taken == exists|q: int| 0 <= q < out@.len() && es@[#[trigger] out@[q] as int].name@ == name@,
{
    let mut k: usize = 0;
    while k < out.len()
        invariant
            k <= out@.len(),
            forall|q: int| 0 <= q < out@.len() ==> (#[trigger] out@[q]) < es@.len(),
            forall|q: int| 0 <= q < k ==> es@[#[trigger] out@[q] as int].name@ != name@,
        decreases out.len() - k,
    {
        let other = chars_of(es[out[k]].name.as_str());
        if seq_eq_chars(&other, name) {
            return true;
        }
        k += 1;
    }
    false
}

/// Where `name` goes among the listed binaries to keep them in name order.
fn insertion_point(es: &Vec<PathEntry>, out: &Vec<usize>, name: &Vec<char>) -> (p: usize)
    requires
        forall|q: int| 0 <= q < out@.len() ==> (#[trigger] out@[q]) < es@.len(),
        forall|q: int| 0 <= q < out@.len() ==> es@[#[trigger] out@[q] as int].name@ != name@,
    ensures
        p <= out@.len(),
        forall|q: int| 0 <= q < p ==> lex_lt(es@[#[trigger] out@[q] as int].name@, name@),
        p < out@.len() ==> lex_le(name@, es@[out@[p as int] as int].name@),
{
    let mut p: usize = 0;
    while p < out.len()
        invariant
            p <= out@.len(),
            forall|q: int| 0 <= q < out@.len() ==> (#[trigger] out@[q]) < es@.len(),
            forall|q: int| 0 <= q < out@.len() ==> es@[#[trigger] out@[q] as int].name@ != name@,
            forall|q: int| 0 <= q < p ==> lex_lt(es@[#[trigger] out@[q] as int].name@, name@),
        decreases out.len() - p,
    {
        let other = chars_of(es[out[p]].name.as_str());
        if lex_le_exec(name, &other) {
            return p;
        }
        proof {
            lemma_lex_total(name@, other@);
        }
        p += 1;
    }
    p
}

/// Whether two character sequences are equal.
fn seq_eq_chars(a: &Vec<char>, b: &Vec<char>) -> (r: bool)
    ensures
        r == (a@ == b@),
{
    if a.len() != b.len() {
        return false;
    }
    let mut k: usize = 0;
    while k < a.len()
        invariant
            a@.len() == b@.len(),
            k <= a@.len(),
            forall|q: int| 0 <= q < k ==> a@[q] == b@[q],
        decreases a.len() - k,
    {
        if a[k] != b[k] {
            return false;
        }
        k += 1;
    }
    assert(a@ =~= b@);
    true
}

/// An earlier plugin binary with the same name would have been listed.
proof fn lemma_earliest_listed(es: Seq<PathEntry>, out: Seq<usize>, j: int, i: int)
    requires
        0 <= j < i < es.len(),
        plugin_binary(es[j]),
        forall|x: int| 0 <= x < i && first_plugin(es, x) ==> exists|k: int| 0 <= k < out.len() && #[trigger] out[k] == x,
        !exists|q: int| 0 <= q < out.len() && es[#[trigger] out[q] as int].name@ == es[i].name@,
    ensures
        es[j].name@ != es[i].name@,
    decreases j,
{
    if es[j].name@ == es[i].name@ {
        if first_plugin(es, j) {
            let k = choose|k: int| 0 <= k < out.len() && #[trigger] out[k] == j;
            assert(es[out[k] as int].name@ == es[i].name@);
        } else {
            let j2 = choose|j2: int| 0 <= j2 < j && plugin_binary(#[trigger] es[j2]) && es[j2].name@ == es[j].name@;
            lemma_earliest_listed(es, out, j2, i);
        }
    }
}

/// Inserting an index at its place in name order keeps the order strict.
proof fn lemma_sorted_insert(es: Seq<PathEntry>, before: Seq<usize>, after: Seq<usize>, p: int, i: usize)
    requires
        0 <= p <= before.len(),
        after == before.insert(p, i),
        0 <= i < es.len(),
        forall|a: int, b: int|
            0 <= a < b < before.len() ==> lex_lt(es[#[trigger] before[a] as int].name@, es[#[trigger] before[b] as int].name@),
        forall|q: int| 0 <= q < p ==> lex_lt(es[#[trigger] before[q] as int].name@, es[i as int].name@),
        p < before.len() ==> lex_lt(es[i as int].name@, es[before[p] as int].name@),
    ensures
        forall|a: int, b: int|
            0 <= a < b < after.len() ==> lex_lt(es[#[trigger] after[a] as int].name@, es[#[trigger] after[b] as int].name@),
{
    assert forall|a: int, b: int| 0 <= a < b < after.len() implies lex_lt(
        es[#[trigger] after[a] as int].name@,
        es[#[trigger] after[b] as int].name@,
    ) by {
        let na = es[after[a] as int].name@;
        let nb = es[after[b] as int].name@;
        if b < p {
            assert(after[a] == before[a] && after[b] == before[b]);
        } else if b == p {
            assert(after[a] == before[a]);
            assert(after[b] == i);
        } else if a < p {
            assert(after[a] == before[a] && after[b] == before[b - 1]);
            let ni = es[i as int].name@;
            assert(lex_lt(na, ni));
            if b - 1 == p {
                assert(lex_lt(ni, nb));
            } else {
                let np = es[before[p] as int].name@;
                assert(lex_lt(ni, np));
                assert(lex_lt(np, nb));
                lemma_lex_transitive(ni, np, nb);
                if ni == nb {
                    lemma_lex_antisymmetric(ni, np);
                }
            }
            lemma_lex_transitive(na, ni, nb);
            if na == nb {
                lemma_lex_antisymmetric(na, ni);
            }
        } else if a == p {
            assert(after[a] == i);
            assert(after[b] == before[b - 1]);
            if b - 1 == p {
            } else {
                let np = es[before[p] as int].name@;
                assert(lex_lt(np, nb));
                lemma_lex_transitive(na, np, nb);
                if na == nb {
                    lemma_lex_antisymmetric(na, np);
                }
            }
        } else {
            assert(after[a] == before[a - 1] && after[b] == before[b - 1]);
        }
    }
}

/// The plugin name of a binary: its name without `zotron-`.
pub open spec fn plugin_name_of(binary: Seq<char>) -> Seq<char> {
    if starts_with(binary, "zotron-"@) {
        binary.skip(7)
    } else {
        binary
    }
}

/// What running `<binary> manifest` gave: whether it succeeded, and its
/// standard output and error.
pub struct ManifestRun {
    pub success: bool,
    pub stdout: String,
    pub stderr: String,
}

/// A plugin reported with an error.
pub open spec fn error_source_json(name: Seq<char>, binary: Seq<char>, error: Seq<char>) -> JsonV {
    JsonV::Object(
        seq![
            ("name"@, JsonV::Str(name)),
            ("binary"@, JsonV::Str(binary)),
            ("status"@, JsonV::Str("error"@)),
            ("error"@, JsonV::Str(error)),
        ],
    )
}

/// A plugin reported with an error.
pub fn error_source(plugin_name: &str, binary: &str, error: &str) -> (r: Json)
    ensures
        r@ == error_source_json(plugin_name@, binary@, error@),
{
    let mut m: Vec<(String, Json)> = Vec::new();
    push_member(&mut m, "name", Json::str(plugin_name));
    push_member(&mut m, "binary", Json::str(binary));
    push_member(&mut m, "status", Json::str("error"));
    push_member(&mut m, "error", Json::str(error));
    assert(members_view(m@) =~= error_source_json(plugin_name@, binary@, error@)->Object_0);
    object_of(m)
}

/// The descriptor of a plugin from its manifest run: the manifest (with its
/// `name` filled in when missing and the `binary` set), or the plugin with
/// the error; `None` when the run timed out.
pub open spec fn manifest_json(name: Seq<char>, binary: Seq<char>, run: Option<ManifestRun>) -> JsonV {
    match run {
        None => error_source_json(name, binary, "manifest command timed out (5s)"@),
        Some(out) => if out.success {
            match json_parse(trim(out.stdout@)) {
                Err(e) => error_source_json(name, binary, "invalid manifest JSON: "@ + e),
                Ok(JsonV::Object(m)) => {
                    let m1 = if members_get(m, "name"@) is Some {
                        m
                    } else {
                        with_member(m, "name"@, JsonV::Str(name))
                    };
                    JsonV::Object(with_member(m1, "binary"@, JsonV::Str(binary)))
                },
                Ok(other) => other,
            }
        } else {
            error_source_json(name, binary, "manifest command failed: "@ + trim(out.stderr@))
        },
    }
}

/// Normalizes a plugin's manifest run into its descriptor (see
/// `manifest_json`).
pub fn manifest_for(plugin_name: &str, binary: &str, run: Option<ManifestRun>) -> (r: Json)
    ensures
        r@ == manifest_json(plugin_name@, binary@, run),
{
    let out = match run {
        None => return error_source(plugin_name, binary, "manifest command timed out (5s)"),
        Some(out) => out,
    };
    if !out.success {
        let t = trim_exec(out.stderr.as_str());
        let e = message("manifest command failed: ", t.as_str());
        return error_source(plugin_name, binary, e.as_str());
    }
    let t = trim_exec(out.stdout.as_str());
    let parsed = parse_json(t.as_str());
    let ghost pv: JsonV = if parsed is Ok {
        parsed->Ok_0@
    } else {
        JsonV::Null
    };
    match parsed {
        Err(e) => {
            let msg = message("invalid manifest JSON: ", e.as_str());
            error_source(plugin_name, binary, msg.as_str())
        },
        Ok(Json::Object(members)) => {
            let mut m = members;
            let ghost m0 = members_view(m@);
            proof {
                assert(m0 =~= pv->Object_0);
                lemma_key_index(m0, "name"@);
                lemma_members_get_index(m0, "name"@);
            }
            match find_member(&m, "name") {
                Some(_) => {},
                None => set_member(&mut m, "name", Json::str(plugin_name)),
            }
            let ghost m1 = members_view(m@);
            proof {
                assert(m1 == (if members_get(m0, "name"@) is Some {
                    m0
                } else {
                    with_member(m0, "name"@, JsonV::Str(plugin_name@))
                }));
            }
            set_member(&mut m, "binary", Json::str(binary));
            object_of(m)
        },
        Ok(other) => other,
    }
}

/// The `sources list` document: the plugins' descriptors under `sources`.
pub fn sources_document(plugins: Vec<Json>) -> (r: Json)
    ensures
        r@ == obj1("sources"@, JsonV::Array(plugins@.map_values(|p: Json| p@))),
{
    Json::object1("sources", Json::arr(plugins))
}

/// The skill directory a plugin offers to link: its `name` and `skill_dir`,
/// when both are non-empty strings.
pub open spec fn skill_link(p: JsonV) -> Option<(Seq<char>, Seq<char>)> {
    let name = str_or(p, "name"@, Seq::empty());
    let dir = str_or(p, "skill_dir"@, Seq::empty());
    if name.len() == 0 || dir.len() == 0 {
        None
    } else {
        Some((name, dir))
    }
}

/// The name and skill directory to link for a plugin descriptor.
pub fn plugin_skill_link(plugin: &Json) -> (r: Option<(String, String)>)
    ensures
        match r {
            Some(l) => skill_link(plugin@) == Some((l.0@, l.1@)),
            None => skill_link(plugin@) is None,
        },
{
    proof {
        reveal_strlit("");
    }
    let name = str_or_exec(plugin, "name", "");
    let dir = str_or_exec(plugin, "skill_dir", "");
    if name.as_str().is_empty() || dir.as_str().is_empty() {
        None
    } else {
        Some((name, dir))
    }
}

/// A symlink in the skills directory goes when no plugin with a skill
/// directory has its name and it points outside the directory.
pub open spec fn stale_link(name: Seq<char>, active: Seq<Seq<char>>, points_inside: bool) -> bool {
    !active.contains(name) && !points_inside
}

/// Whether the symlink `name` is stale (see `stale_link`).
pub fn is_stale_link(name: &str, active: &Vec<String>, points_inside: bool) -> (r: bool)
    ensures
        r == stale_link(name@, active@.map_values(|a: String| a@), points_inside),
{
    let ghost names = active@.map_values(|a: String| a@);
    let mut k: usize = 0;
    while k < active.len()
        invariant
            k <= active@.len(),
            names == active@.map_values(|a: String| a@),
            forall|q: int| 0 <= q < k ==> names[q] != name@,
        decreases active.len() - k,
    {
        if str_eq(active[k].as_str(), name) {
            assert(names[k as int] == name@);
            return false;
        }
        k += 1;
    }
    !points_inside
}

/// The report of `sources sync`.
pub open spec fn sync_report_json(linked: u64, cleaned: u64, skills_dir: Seq<char>) -> JsonV {
    JsonV::Object(
        seq![
            ("ok"@, JsonV::Bool(true)),
            ("linked"@, JsonV::Number(NumberV::PosInt(linked))),
            ("cleaned"@, JsonV::Number(NumberV::PosInt(cleaned))),
            ("skills_dir"@, JsonV::Str(skills_dir)),
        ],
    )
}

/// The report of `sources sync`: how many links stand and how many went.
pub fn sync_report(linked: u64, cleaned: u64, skills_dir: &str) -> (r: Json)
    ensures
        r@ == sync_report_json(linked, cleaned, skills_dir@),
{
    let mut m: Vec<(String, Json)> = Vec::new();
    push_member(&mut m, "ok", Json::boolean(true));
    push_member(&mut m, "linked", Json::uint(linked));
    push_member(&mut m, "cleaned", Json::uint(cleaned));
    push_member(&mut m, "skills_dir", Json::str(skills_dir));
    assert(members_view(m@) =~= sync_report_json(linked, cleaned, skills_dir@)->Object_0);
    object_of(m)
}

} // verus!
