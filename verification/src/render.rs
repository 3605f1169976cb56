//! JSON text as the command line prints it: on one line, members in their
//! order, `", "` between items and `": "` after keys, strings escaped as JSON
//! requires and nothing more (other characters are written as they are).

use vstd::prelude::*;
use crate::cli::search::number_text;
use crate::json::{Json, JsonNumber, JsonV};
use crate::text::{char_from_ascii, chars_of, i64_to_string, push_str, u64_to_string};

verus! {

/// A hexadecimal digit, in lower case.
pub open spec fn hex_digit(n: nat) -> char {
    if n < 10 {
        (48 + n) as char
    } else {
        (87 + n) as char
    }
}

/// A character inside a JSON string: quote, backslash and the control
/// characters escaped (the short forms where JSON has them, `\u00XX`
/// otherwise), anything else as it is.
pub open spec fn escape_char(c: char) -> Seq<char> {
    if c == '"' {
        seq!['\\', '"']
    } else if c == '\\' {
        seq!['\\', '\\']
    } else if c == '\n' {
        seq!['\\', 'n']
    } else if c == '\r' {
        seq!['\\', 'r']
    } else if c == '\t' {
        seq!['\\', 't']
    } else if c == '\u{8}' {
        seq!['\\', 'b']
    } else if c == '\u{c}' {
        seq!['\\', 'f']
    } else if (c as u32) < 32 {
        seq!['\\', 'u', '0', '0', hex_digit((c as u32 / 16) as nat), hex_digit((c as u32 % 16) as nat)]
    } else {
        seq![c]
    }
}

/// The characters of a string, escaped.
pub open spec fn escaped(s: Seq<char>) -> Seq<char>
    decreases s.len(),
{
    if s.len() == 0 {
        seq![]
    } else {
        escaped(s.drop_last()) + escape_char(s.last())
    }
}

/// A string literal.
pub open spec fn quoted(s: Seq<char>) -> Seq<char> {
    seq!['"'] + escaped(s) + seq!['"']
}

/// The text of a document.
pub open spec fn rendered(v: JsonV) -> Seq<char>
    decreases v,
{
    match v {
        JsonV::Null => "null"@,
        JsonV::Bool(b) => if b {
            "true"@
        } else {
            "false"@
        },
        JsonV::Number(n) => number_text(n),
        JsonV::Str(s) => quoted(s),
        JsonV::Array(a) => seq!['['] + rendered_items(a) + seq![']'],
        JsonV::Object(m) => seq!['{'] + rendered_members(m) + seq!['}'],
    }
}

/// The items of an array, `", "` between them.
pub open spec fn rendered_items(a: Seq<JsonV>) -> Seq<char>
    decreases a,
{
    if a.len() == 0 {
        seq![]
    } else if a.len() == 1 {
        rendered(a[0])
    } else {
        rendered_items(a.drop_last()) + ", "@ + rendered(a.last())
    }
}

/// The members of an object, `", "` between them, each `"key": value`.
pub open spec fn rendered_members(m: Seq<(Seq<char>, JsonV)>) -> Seq<char>
    decreases m,
{
    if m.len() == 0 {
        seq![]
    } else if m.len() == 1 {
        quoted(m[0].0) + ": "@ + rendered(m[0].1)
    } else {
        rendered_members(m.drop_last()) + ", "@ + quoted(m.last().0) + ": "@ + rendered(m.last().1)
    }
}

fn hex_char(n: u32) -> (r: char)
    requires
        n < 16,
    ensures
        r == hex_digit(n as nat),
{
    if n < 10 {
        char_from_ascii((48 + n) as u8)
    } else {
        char_from_ascii((87 + n) as u8)
    }
}

/// Appends a character of a string, escaped.
fn push_escaped_char(out: &mut String, c: char)
    ensures
        final(out)@ == old(out)@ + escape_char(c),
{
    let code = c as u32;
    if c == '"' {
        out.push('\\');
        out.push('"');
    } else if c == '\\' {
        out.push('\\');
        out.push('\\');
    } else if c == '\n' {
        out.push('\\');
        out.push('n');
    } else if c == '\r' {
        out.push('\\');
        out.push('r');
    } else if c == '\t' {
        out.push('\\');
        out.push('t');
    } else if c == '\u{8}' {
        out.push('\\');
        out.push('b');
    } else if c == '\u{c}' {
        out.push('\\');
        out.push('f');
    } else if code < 32 {
        out.push('\\');
        out.push('u');
        out.push('0');
        out.push('0');
        out.push(hex_char(code / 16));
        out.push(hex_char(code % 16));
    } else {
        out.push(c);
    }
    assert(final(out)@ =~= old(out)@ + escape_char(c));
}

/// Appends a string literal.
pub fn push_quoted(out: &mut String, s: &str)
    ensures
        final(out)@ == old(out)@ + quoted(s@),
{
    let v = chars_of(s);
    let ghost start = out@;
    out.push('"');
    let mut i: usize = 0;
    assert(v@.take(0) =~= Seq::<char>::empty());
    while i < v.len()
        invariant
            i <= v@.len(),
            v@ == s@,
            out@ == start + seq!['"'] + escaped(v@.take(i as int)),
        decreases v.len() - i,
    {
        proof {
            assert(v@.take(i + 1).drop_last() =~= v@.take(i as int));
            assert(v@.take(i + 1).last() == v@[i as int]);
        }
        push_escaped_char(out, v[i]);
        assert(out@ =~= start + seq!['"'] + escaped(v@.take(i + 1)));
        i += 1;
    }
    assert(v@.take(v@.len() as int) =~= v@);
    out.push('"');
    assert(out@ =~= start + quoted(s@));
}

/// Appends the text of a document (see `rendered`).
pub fn push_rendered(out: &mut String, value: &Json)
    ensures
        final(out)@ == old(out)@ + rendered(value@),
    decreases value,
{
    match value {
        Json::Null => push_str(out, "null"),
        Json::Bool(b) => {
            if *b {
                push_str(out, "true");
            } else {
                push_str(out, "false");
            }
        },
        Json::Number(n) => {
            match n {
                JsonNumber::PosInt(x) => {
                    let t = u64_to_string(*x);
                    push_str(out, t.as_str());
                },
                JsonNumber::NegInt(x) => {
                    let t = i64_to_string(*x);
                    push_str(out, t.as_str());
                },
                JsonNumber::Float(t) => push_str(out, t.as_str()),
            }
        },
        Json::Str(s) => push_quoted(out, s.as_str()),
        Json::Array(a) => {
            let ghost av = value@->Array_0;
            assert(av =~= a@.map_values(|x: Json| x@));
            let ghost start = out@;
            out.push('[');
            let mut i: usize = 0;
            assert(av.take(0) =~= Seq::<JsonV>::empty());
            while i < a.len()
                invariant
                    *value == Json::Array(*a),
                    av == a@.map_values(|x: Json| x@),
                    i <= a@.len(),
                    out@ == start + seq!['['] + rendered_items(av.take(i as int)),
                decreases a.len() - i,
            {
                assert(decreases_to!(*value => a@[i as int])) by {
                    assert(decreases_to!(*value => (*value)->Array_0));
                    assert(decreases_to!(*a => a@));
                    assert(decreases_to!(a@ => a@[i as int]));
                }
                proof {
                    assert(av.take(i + 1).drop_last() =~= av.take(i as int));
                    assert(av.take(i + 1).last() == a@[i as int]@);
                    assert(av.take(1)[0] == av[0]);
                }
                if i > 0 {
                    push_str(out, ", ");
                }
                push_rendered(out, &a[i]);
                assert(out@ =~= start + seq!['['] + rendered_items(av.take(i + 1)));
                i += 1;
            }
            assert(av.take(a@.len() as int) =~= av);
            out.push(']');
            assert(out@ =~= start + rendered(value@));
        },
        Json::Object(m) => {
            let ghost mv = value@->Object_0;
            assert(mv =~= m@.map_values(|x: (String, Json)| (x.0@, x.1@)));
            let ghost start = out@;
            out.push('{');
            let mut i: usize = 0;
            assert(mv.take(0) =~= Seq::<(Seq<char>, JsonV)>::empty());
            while i < m.len()
                invariant
                    *value == Json::Object(*m),
                    mv == m@.map_values(|x: (String, Json)| (x.0@, x.1@)),
                    i <= m@.len(),
                    out@ == start + seq!['{'] + rendered_members(mv.take(i as int)),
                decreases m.len() - i,
            {
                assert(decreases_to!(*value => m@[i as int].1)) by {
                    assert(decreases_to!(*value => (*value)->Object_0));
                    assert(decreases_to!(*m => m@));
                    assert(decreases_to!(m@ => m@[i as int]));
                    assert(decreases_to!(m@[i as int] => m@[i as int].1));
                }
                proof {
                    assert(mv.take(i + 1).drop_last() =~= mv.take(i as int));
                    assert(mv.take(i + 1).last() == (m@[i as int].0@, m@[i as int].1@));
                    assert(mv.take(1)[0] == mv[0]);
                }
                if i > 0 {
                    push_str(out, ", ");
                }
                push_quoted(out, m[i].0.as_str());
                push_str(out, ": ");
                push_rendered(out, &m[i].1);
                assert(out@ =~= start + seq!['{'] + rendered_members(mv.take(i + 1)));
                i += 1;
            }
            assert(mv.take(m@.len() as int) =~= mv);
            out.push('}');
            assert(out@ =~= start + rendered(value@));
        },
    }
}

/// The text of a document (see `rendered`).
pub fn render(value: &Json) -> (r: String)
    ensures
        r@ == rendered(value@),
{
    let mut out = String::new();
    push_rendered(&mut out, value);
    assert(out@ =~= rendered(value@));
    out
}

} // verus!
