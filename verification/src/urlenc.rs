//! Percent-encoding of URL components, byte by byte over the UTF-8 form.

use vstd::prelude::*;

verus! {

/// Bytes that stay as they are in a query value: ASCII letters and digits
/// and `-`, `_`, `.`, `~`.
pub open spec fn is_unreserved(b: u8) -> bool {
    (0x41 <= b <= 0x5A) || (0x61 <= b <= 0x7A) || (0x30 <= b <= 0x39) || b == 0x2D || b == 0x5F
        || b == 0x2E || b == 0x7E
}

/// The upper-case hexadecimal digit of `n < 16`.
pub open spec fn hex_upper(n: u8) -> char {
    if n < 10 {
        ((n + 0x30) as u32) as char
    } else {
        ((n + 0x37) as u32) as char
    }
}

/// The encoding of one byte: itself when it is kept, `%XY` otherwise.
pub open spec fn encode_byte(b: u8, keep_slash: bool) -> Seq<char> {
    if is_unreserved(b) || (keep_slash && b == 0x2F) {
        seq![(b as u32) as char]
    } else {
        seq!['%', hex_upper(b / 16), hex_upper(b % 16)]
    }
}

/// The percent-encoding of `bytes`; `/` is kept when `keep_slash` holds.
pub open spec fn percent_encode(bytes: Seq<u8>, keep_slash: bool) -> Seq<char>
    decreases bytes.len(),
{
    if bytes.len() == 0 {
        seq![]
    } else {
        percent_encode(bytes.drop_last(), keep_slash) + encode_byte(bytes.last(), keep_slash)
    }
}

fn hex_upper_exec(n: u8) -> (r: char)
    requires
        n < 16,
    ensures
        r == hex_upper(n),
{
    if n < 10 {
        crate::text::char_from_ascii(n + 0x30)
    } else {
        crate::text::char_from_ascii(n + 0x37)
    }
}

fn is_unreserved_exec(b: u8) -> (r: bool)
    ensures
        r == is_unreserved(b),
{
    (0x41 <= b && b <= 0x5A) || (0x61 <= b && b <= 0x7A) || (0x30 <= b && b <= 0x39) || b == 0x2D
        || b == 0x5F || b == 0x2E || b == 0x7E
}

/// Percent-encodes the UTF-8 bytes of `s`, keeping `/` when `keep_slash`.
pub fn percent_encode_exec(s: &str, keep_slash: bool) -> (r: String)
    ensures
        r@ == percent_encode(vstd::utf8::encode_utf8(s@), keep_slash),
{
    let bytes = s.as_bytes();
    let mut out = String::new();
    let mut i: usize = 0;
    while i < bytes.len()
        invariant
            0 <= i <= bytes@.len(),
            out@ == percent_encode(bytes@.take(i as int), keep_slash),
        decreases bytes.len() - i,
    {
        let b = bytes[i];
        if is_unreserved_exec(b) || (keep_slash && b == 0x2F) {
            out.push(crate::text::char_from_ascii(b));
        } else {
            out.push('%');
            out.push(hex_upper_exec(b / 16));
            out.push(hex_upper_exec(b % 16));
        }
        proof {
            assert(bytes@.take(i + 1).drop_last() =~= bytes@.take(i as int));
            assert(bytes@.take(i + 1).last() == b);
        }
        i += 1;
        assert(out@ =~= percent_encode(bytes@.take(i as int), keep_slash));
    }
    assert(bytes@.take(bytes@.len() as int) =~= bytes@);
    out
}

/// Percent-encodes a query-parameter value: every byte but ASCII letters,
/// digits and `-_.~` becomes `%XY`.
pub fn encode_query(s: &str) -> (r: String)
    ensures
        r@ == percent_encode(vstd::utf8::encode_utf8(s@), false),
{
    percent_encode_exec(s, false)
}

/// Percent-encodes a DOI for a URL path, keeping its `/` separators.
pub fn encode_doi_path(s: &str) -> (r: String)
    ensures
        r@ == percent_encode(vstd::utf8::encode_utf8(s@), true),
{
    percent_encode_exec(s, true)
}

/// A character that may appear in percent-encoded text: an unreserved ASCII
/// character, `%`, an upper-case hexadecimal digit, or `/` when it is kept.
pub open spec fn encoded_char(c: char, keep_slash: bool) -> bool {
    ('A' <= c <= 'Z') || ('a' <= c <= 'z') || ('0' <= c <= '9') || c == '-' || c == '_' || c == '.'
        || c == '~' || c == '%' || (keep_slash && c == '/')
}

/// Percent-encoding produces only unreserved ASCII characters, `%` and hex
/// digits (and `/` where it is kept), so its result is safe in a URL.
pub proof fn law_percent_encoding_alphabet(bytes: Seq<u8>, keep_slash: bool)
    ensures
        forall|i: int|
            0 <= i < percent_encode(bytes, keep_slash).len() ==> encoded_char(
                #[trigger] percent_encode(bytes, keep_slash)[i],
                keep_slash,
            ),
    decreases bytes.len(),
{
    if bytes.len() > 0 {
        law_percent_encoding_alphabet(bytes.drop_last(), keep_slash);
        let pre = percent_encode(bytes.drop_last(), keep_slash);
        let b = bytes.last();
        let e = encode_byte(b, keep_slash);
        assert forall|n: u8| n < 16 implies encoded_char(#[trigger] hex_upper(n), keep_slash) by {
            if n < 10 {
                assert(((n + 0x30) as u32) as char == (n + 0x30) as char);
            }
        }
        assert forall|k: int| 0 <= k < e.len() implies encoded_char(#[trigger] e[k], keep_slash) by {
            if is_unreserved(b) || (keep_slash && b == 0x2F) {
            } else {
                assert(b / 16 < 16);
                assert(b % 16 < 16);
            }
        }
        assert forall|i: int| 0 <= i < percent_encode(bytes, keep_slash).len() implies encoded_char(
            #[trigger] percent_encode(bytes, keep_slash)[i],
            keep_slash,
        ) by {
            if i >= pre.len() {
                assert(percent_encode(bytes, keep_slash)[i] == e[i - pre.len()]);
            } else {
                assert(percent_encode(bytes, keep_slash)[i] == pre[i]);
            }
        }
    }
}

/// How many bytes are kept as they are.
pub open spec fn kept_count(bytes: Seq<u8>, keep_slash: bool) -> nat
    decreases bytes.len(),
{
    if bytes.len() == 0 {
        0
    } else {
        kept_count(bytes.drop_last(), keep_slash) + if is_unreserved(bytes.last()) || (keep_slash
            && bytes.last() == 0x2F) {
            1nat
        } else {
            0nat
        }
    }
}

/// Law: each kept byte takes one character and every other byte three, so
/// the encoding is `kept + 3 * others` long.
pub proof fn law_percent_encoding_length(bytes: Seq<u8>, keep_slash: bool)
    ensures
        percent_encode(bytes, keep_slash).len() == kept_count(bytes, keep_slash) + 3 * (bytes.len()
            - kept_count(bytes, keep_slash)),
        kept_count(bytes, keep_slash) <= bytes.len(),
    decreases bytes.len(),
{
    if bytes.len() > 0 {
        law_percent_encoding_length(bytes.drop_last(), keep_slash);
    }
}

/// The value of an upper-case hexadecimal digit.
pub open spec fn hex_value(c: char) -> int {
    if '0' <= c <= '9' {
        (c as int) - 48
    } else {
        (c as int) - 55
    }
}

/// Percent-decoding: `%XY` is the byte `XY`, any other character the byte of
/// its code (the characters of an encoding are ASCII).
pub open spec fn percent_decode(s: Seq<char>) -> Seq<u8>
    decreases s.len(),
{
    if s.len() == 0 {
        seq![]
    } else if s[0] == '%' && s.len() >= 3 {
        seq![(hex_value(s[1]) * 16 + hex_value(s[2])) as u8] + percent_decode(s.skip(3))
    } else {
        seq![(s[0] as u32) as u8] + percent_decode(s.drop_first())
    }
}

proof fn lemma_hex_round_trip(n: u8)
    requires
        n < 16,
    ensures
        hex_value(hex_upper(n)) == n,
{
}

proof fn lemma_decode_byte_first(b: u8, keep_slash: bool, rest: Seq<char>)
    ensures
        percent_decode(encode_byte(b, keep_slash) + rest) == seq![b] + percent_decode(rest),
{
    let e = encode_byte(b, keep_slash);
    let s = e + rest;
    if is_unreserved(b) || (keep_slash && b == 0x2F) {
        assert(s[0] == (b as u32) as char);
        assert(s[0] != '%');
        assert(s.drop_first() =~= rest);
    } else {
        lemma_hex_round_trip(b / 16);
        lemma_hex_round_trip(b % 16);
        assert(s[0] == '%' && s[1] == hex_upper(b / 16) && s[2] == hex_upper(b % 16));
        assert(s.skip(3) =~= rest);
        assert((hex_value(s[1]) * 16 + hex_value(s[2])) as u8 == b);
    }
}

proof fn lemma_encode_prepend(b: u8, bytes: Seq<u8>, keep_slash: bool)
    ensures
        percent_encode(seq![b] + bytes, keep_slash) == encode_byte(b, keep_slash) + percent_encode(
            bytes,
            keep_slash,
        ),
    decreases bytes.len(),
{
    let all = seq![b] + bytes;
    if bytes.len() == 0 {
        assert(all.drop_last() =~= Seq::<u8>::empty());
        assert(all.last() == b);
        assert(percent_encode(all.drop_last(), keep_slash) == Seq::<char>::empty());
        assert(percent_encode(all, keep_slash) == Seq::<char>::empty() + encode_byte(b, keep_slash));
        assert(Seq::<char>::empty() + encode_byte(b, keep_slash) =~= encode_byte(b, keep_slash));
        assert(percent_encode(bytes, keep_slash) == Seq::<char>::empty());
        assert(encode_byte(b, keep_slash) + Seq::<char>::empty() =~= encode_byte(b, keep_slash));
    } else {
        lemma_encode_prepend(b, bytes.drop_last(), keep_slash);
        assert(all.drop_last() =~= seq![b] + bytes.drop_last());
        assert(all.last() == bytes.last());
        assert(percent_encode(all, keep_slash) =~= encode_byte(b, keep_slash) + percent_encode(
            bytes,
            keep_slash,
        ));
    }
}

/// Law: percent-decoding the encoding gives the bytes back.
pub proof fn law_percent_encoding_round_trip(bytes: Seq<u8>, keep_slash: bool)
    ensures
        percent_decode(percent_encode(bytes, keep_slash)) == bytes,
    decreases bytes.len(),
{
    if bytes.len() > 0 {
        let b = bytes[0];
        let rest = bytes.drop_first();
        assert(bytes =~= seq![b] + rest);
        lemma_encode_prepend(b, rest, keep_slash);
        lemma_decode_byte_first(b, keep_slash, percent_encode(rest, keep_slash));
        law_percent_encoding_round_trip(rest, keep_slash);
    }
}

} // verus!
