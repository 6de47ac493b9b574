//! Percent-encoding for query strings.

use vstd::prelude::*;
use vstd::string::*;

use crate::text;

verus! {

/// The bytes that stand for themselves.
pub open spec fn unreserved(b: u8) -> bool {
    ||| 0x41 <= b <= 0x5a
    ||| 0x61 <= b <= 0x7a
    ||| 0x30 <= b <= 0x39
    ||| b == 0x2d
    ||| b == 0x5f
    ||| b == 0x2e
    ||| b == 0x7e
}

/// The character of a hexadecimal digit, in upper case.
pub open spec fn hex(d: int) -> char {
    if d < 10 {
        text::digit(d)
    } else {
        (0x41 + d - 10) as char
    }
}

fn hex_char(d: u8) -> (r: char)
    requires
        d < 16,
    ensures
        r == hex(d as int),
{
    if d < 10 {
        (0x30u8 + d) as char
    } else {
        (0x41u8 + (d - 10)) as char
    }
}

/// A byte as itself, or as `%` and its two hexadecimal digits.
pub open spec fn encoded_byte(b: u8) -> Seq<char> {
    if unreserved(b) {
        seq![b as char]
    } else {
        seq!['%', hex((b / 16) as int), hex((b % 16) as int)]
    }
}

/// Each byte encoded.
pub open spec fn encoded_bytes(bytes: Seq<u8>) -> Seq<char>
    decreases bytes.len(),
{
    if bytes.len() == 0 {
        seq![]
    } else {
        encoded_bytes(bytes.drop_last()) + encoded_byte(bytes.last())
    }
}

/// The UTF-8 bytes of a text encoded.
pub open spec fn urlencoded(s: Seq<char>) -> Seq<char> {
    encoded_bytes(vstd::utf8::encode_utf8(s))
}

/// Minimal percent-encoding for a folder id in a query string.
pub fn urlencode(s: &str) -> (r: String)
    ensures
        r@ == urlencoded(s@),
{
    let bytes = s.as_bytes();
    let mut out = String::new();
    let mut i: usize = 0;
    while i < bytes.len()
        invariant
            i <= bytes@.len(),
            bytes@ == vstd::utf8::encode_utf8(s@),
            out@ == encoded_bytes(bytes@.take(i as int)),
        decreases bytes@.len() - i,
    {
        let b: u8 = bytes[i];
        let ghost before = out@;
        assert(bytes@.take(i + 1).drop_last() =~= bytes@.take(i as int));
        if (0x41 <= b && b <= 0x5a) || (0x61 <= b && b <= 0x7a) || (0x30 <= b && b <= 0x39) || b
            == 0x2d || b == 0x5f || b == 0x2e || b == 0x7e {
            out.push(b as char);
        } else {
            out.push('%');
            out.push(hex_char(b / 16));
            out.push(hex_char(b % 16));
        }
        assert(out@ =~= before + encoded_byte(b));
        i += 1;
    }
    assert(bytes@.take(i as int) =~= bytes@);
    out
}

/// A character that has no other meaning in a query string.
pub open spec fn plain(c: char) -> bool {
    c == '%' || ((c as int) < 0x80 && unreserved(c as u8))
}

proof fn lemma_encoded_byte_plain(b: u8)
    ensures
        forall|i: int| 0 <= i < encoded_byte(b).len() ==> plain(#[trigger] encoded_byte(b)[i]),
{
    let e = encoded_byte(b);
    assert forall|i: int| 0 <= i < e.len() implies plain(#[trigger] e[i]) by {
        if unreserved(b) {
            assert(e[i] == b as char);
        } else {
            assert(i == 0 || i == 1 || i == 2);
        }
    }
}

proof fn lemma_encoded_bytes_plain(bytes: Seq<u8>)
    ensures
        forall|i: int| 0 <= i < encoded_bytes(bytes).len() ==> plain(
            #[trigger] encoded_bytes(bytes)[i],
        ),
    decreases bytes.len(),
{
    if bytes.len() > 0 {
        let front = encoded_bytes(bytes.drop_last());
        let back = encoded_byte(bytes.last());
        lemma_encoded_bytes_plain(bytes.drop_last());
        lemma_encoded_byte_plain(bytes.last());
        assert forall|i: int| 0 <= i < (front + back).len() implies plain(
            #[trigger] (front + back)[i],
        ) by {
            if i < front.len() {
                assert((front + back)[i] == front[i]);
            } else {
                assert((front + back)[i] == back[i - front.len()]);
            }
        }
    }
}

/// An encoded text has no character with a meaning of its own in a query string:
/// letters, digits, `-`, `_`, `.`, `~` and the `%` of an encoded byte are all.
pub proof fn urlencode_is_plain(s: Seq<char>)
    ensures
        forall|i: int| 0 <= i < urlencoded(s).len() ==> plain(#[trigger] urlencoded(s)[i]),
{
    lemma_encoded_bytes_plain(vstd::utf8::encode_utf8(s));
}

/// The number that a hexadecimal digit in upper case stands for.
pub open spec fn hex_value(c: char) -> int {
    if (c as int) <= 0x39 {
        c as int - 0x30
    } else {
        c as int - 0x41 + 10
    }
}

/// What percent-decoding makes of a text: the byte of the two digits behind a `%`,
/// any other character as its byte.
pub open spec fn decoded_bytes(s: Seq<char>) -> Seq<u8>
    decreases s.len(),
{
    if s.len() == 0 {
        seq![]
    } else if s.len() >= 3 && s[0] == '%' {
        seq![(16 * hex_value(s[1]) + hex_value(s[2])) as u8] + decoded_bytes(s.skip(3))
    } else {
        seq![s[0] as u8] + decoded_bytes(s.skip(1))
    }
}

proof fn lemma_encoded_first(bytes: Seq<u8>)
    requires
        bytes.len() > 0,
    ensures
        encoded_bytes(bytes) == encoded_byte(bytes[0]) + encoded_bytes(bytes.drop_first()),
    decreases bytes.len(),
{
    let rest = bytes.drop_first();
    if bytes.len() == 1 {
        assert(bytes.drop_last() =~= Seq::<u8>::empty());
        assert(rest =~= Seq::<u8>::empty());
        assert(encoded_bytes(bytes) =~= encoded_byte(bytes[0]) + encoded_bytes(rest));
    } else {
        lemma_encoded_first(bytes.drop_last());
        assert(bytes.drop_last().drop_first() =~= rest.drop_last());
        assert(bytes.drop_last()[0] == bytes[0]);
        assert(rest.last() == bytes.last());
        assert(encoded_bytes(bytes) =~= encoded_byte(bytes[0]) + encoded_bytes(rest));
    }
}

proof fn lemma_byte_read_back(b: u8, rest: Seq<char>)
    ensures
        decoded_bytes(encoded_byte(b) + rest) == seq![b] + decoded_bytes(rest),
{
    let s = encoded_byte(b) + rest;
    if unreserved(b) {
        assert(s.skip(1) =~= rest);
        assert(s[0] == b as char);
        assert(s[0] != '%');
        assert(s[0] as u8 == b);
    } else {
        assert(s.skip(3) =~= rest);
        let high = (b / 16) as int;
        let low = (b % 16) as int;
        assert(s[0] == '%' && s[1] == hex(high) && s[2] == hex(low));
        assert(hex_value(hex(high)) == high);
        assert(hex_value(hex(low)) == low);
        assert(16 * high + low == b);
    }
}

proof fn lemma_bytes_read_back(bytes: Seq<u8>)
    ensures
        decoded_bytes(encoded_bytes(bytes)) == bytes,
    decreases bytes.len(),
{
    if bytes.len() > 0 {
        lemma_encoded_first(bytes);
        lemma_byte_read_back(bytes[0], encoded_bytes(bytes.drop_first()));
        lemma_bytes_read_back(bytes.drop_first());
        assert(bytes =~= seq![bytes[0]] + bytes.drop_first());
    } else {
        assert(bytes =~= Seq::<u8>::empty());
    }
}

/// Percent-decoding an encoded text gives its UTF-8 bytes back.
pub proof fn urlencode_reads_back(s: Seq<char>)
    ensures
        decoded_bytes(urlencoded(s)) == vstd::utf8::encode_utf8(s),
{
    lemma_bytes_read_back(vstd::utf8::encode_utf8(s));
}

/// Different texts have different encodings.
pub proof fn urlencode_is_injective(s: Seq<char>, t: Seq<char>)
    requires
        urlencoded(s) == urlencoded(t),
    ensures
        s == t,
{
    urlencode_reads_back(s);
    urlencode_reads_back(t);
    vstd::utf8::encode_utf8_decode_utf8(s);
    vstd::utf8::encode_utf8_decode_utf8(t);
}

} // verus!
