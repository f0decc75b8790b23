//! RFC 3986 percent-encoding for the `std::text` URL helpers.
//!
//! The unreserved set (`A-Z`, `a-z`, `0-9`, `-`, `.`, `_`, `~`) stays literal;
//! every other byte is `%XX` with uppercase hex. Decoding accepts either hex
//! case, treats `+` as a literal plus rather than a space, and is the exact
//! inverse of [`encode`] on any UTF-8 input.

use vstd::prelude::*;
use vstd::utf8::*;

use crate::hex::{hex_byte_value, is_hex_byte};
use crate::strbuf::{push_char, string_from_utf8};

verus! {

/// The RFC 3986 unreserved bytes.
pub open spec fn is_unreserved_byte(b: u8) -> bool {
    (65 <= b <= 90) || (97 <= b <= 122) || (48 <= b <= 57) || b == 45 || b == 46 || b == 95
        || b == 126
}

/// The uppercase hex digit byte for a value in `0..16`.
pub open spec fn upper_hex_byte(n: int) -> u8 {
    if n < 10 {
        (n + 48) as u8
    } else {
        (n + 55) as u8
    }
}

/// The encoded form of one byte: itself when unreserved, else `%XX`.
pub open spec fn percent_piece(b: u8) -> Seq<u8> {
    if is_unreserved_byte(b) {
        seq![b]
    } else {
        seq![37u8, upper_hex_byte(b as int / 16), upper_hex_byte(b as int % 16)]
    }
}

/// The percent-encoded bytes of a byte sequence, piece by piece.
pub open spec fn percent_encoding(bytes: Seq<u8>) -> Seq<u8>
    decreases bytes.len(),
{
    if bytes.len() == 0 {
        Seq::empty()
    } else {
        percent_piece(bytes[0]) + percent_encoding(bytes.drop_first())
    }
}

/// Bytes read as characters one for one (the encoding is pure ASCII).
pub open spec fn bytes_as_chars(bytes: Seq<u8>) -> Seq<char> {
    bytes.map_values(|b: u8| b as char)
}

/// Percent decoding of raw bytes: `%` must be followed by two hex digits of
/// either case; every other byte stands for itself.
pub open spec fn percent_decoding(text: Seq<u8>) -> Option<Seq<u8>>
    decreases text.len(),
{
    if text.len() == 0 {
        Some(Seq::empty())
    } else if text[0] == 37u8 {
        if text.len() >= 3 && is_hex_byte(text[1]) && is_hex_byte(text[2]) {
            match percent_decoding(text.skip(3)) {
                Some(rest) => Some(
                    seq![(hex_byte_value(text[1]) * 16 + hex_byte_value(text[2])) as u8] + rest,
                ),
                None => None,
            }
        } else {
            None
        }
    } else {
        match percent_decoding(text.skip(1)) {
            Some(rest) => Some(seq![text[0]] + rest),
            None => None,
        }
    }
}

/// What `decode` yields for the text `chars`: the decoded bytes read as
/// UTF-8, or `None` for a malformed escape or invalid UTF-8.
pub open spec fn percent_decoded_text(chars: Seq<char>) -> Option<Seq<char>> {
    match percent_decoding(encode_utf8(chars)) {
        Some(bytes) => if valid_utf8(bytes) {
            Some(decode_utf8(bytes))
        } else {
            None
        },
        None => None,
    }
}

fn is_unreserved(byte: u8) -> (r: bool)
    ensures
        r == is_unreserved_byte(byte),
{
    (byte >= 65 && byte <= 90) || (byte >= 97 && byte <= 122) || (byte >= 48 && byte <= 57)
        || byte == 45 || byte == 46 || byte == 95 || byte == 126
}

fn upper_digit(n: u8) -> (c: char)
    requires
        n < 16,
    ensures
        c == upper_hex_byte(n as int) as char,
{
    if n < 10 {
        (n + 48) as char
    } else {
        (n + 55) as char
    }
}

proof fn lemma_percent_encoding_concat(a: Seq<u8>, b: Seq<u8>)
    ensures
        percent_encoding(a + b) == percent_encoding(a) + percent_encoding(b),
    decreases a.len(),
{
    if a.len() == 0 {
        assert(a + b =~= b);
    } else {
        lemma_percent_encoding_concat(a.drop_first(), b);
        assert((a + b).drop_first() =~= a.drop_first() + b);
        assert((a + b)[0] == a[0]);
    }
}

proof fn lemma_percent_encoding_push(a: Seq<u8>, x: u8)
    ensures
        percent_encoding(a.push(x)) == percent_encoding(a) + percent_piece(x),
{
    lemma_percent_encoding_concat(a, seq![x]);
    assert(a.push(x) =~= a + seq![x]);
    let one = seq![x];
    assert(one.drop_first() =~= Seq::<u8>::empty());
    assert(one[0] == x);
    assert(percent_encoding(one.drop_first()) =~= Seq::<u8>::empty());
    assert(percent_encoding(one) == percent_piece(x) + percent_encoding(one.drop_first()));
    assert(percent_piece(x) + Seq::<u8>::empty() =~= percent_piece(x));
}

/// Percent-encode the UTF-8 bytes of `text`.
pub fn encode(text: &str) -> (out: String)
    ensures
        out@ == bytes_as_chars(percent_encoding(encode_utf8(text@))),
{
    let bytes = text.as_bytes();
    let ghost b = bytes@;
    let mut out = String::new();
    let mut i: usize = 0;
    while i < bytes.len()
        invariant
            b == bytes@,
            i <= b.len(),
            out@ == bytes_as_chars(percent_encoding(b.take(i as int))),
        decreases b.len() - i,
    {
        let byte = bytes[i];
        let ghost before = out@;
        proof {
            lemma_percent_encoding_push(b.take(i as int), byte);
            assert(b.take(i as int + 1) =~= b.take(i as int).push(byte));
        }
        if is_unreserved(byte) {
            push_char(&mut out, byte as char);
        } else {
            push_char(&mut out, '%');
            push_char(&mut out, upper_digit(byte / 16));
            push_char(&mut out, upper_digit(byte % 16));
        }
        assert(out@ =~= bytes_as_chars(percent_encoding(b.take(i as int + 1))));
        i = i + 1;
    }
    assert(b.take(b.len() as int) =~= b);
    out
}

fn nibble(byte: u8) -> (r: Option<u8>)
    ensures
        r == (if is_hex_byte(byte) {
            Some(hex_byte_value(byte) as u8)
        } else {
            None::<u8>
        }),
{
    if byte >= 48 && byte <= 57 {
        Some(byte - 48)
    } else if byte >= 97 && byte <= 102 {
        Some(byte - 87)
    } else if byte >= 65 && byte <= 70 {
        Some(byte - 55)
    } else {
        None
    }
}

/// Decode percent escapes, or `None` for a malformed escape or decoded bytes
/// that are not valid UTF-8.
pub fn decode(text: &str) -> (r: Option<String>)
    ensures
        r is Some <==> percent_decoded_text(text@) is Some,
        r matches Some(s) ==> percent_decoded_text(text@) == Some(s@),
{
    let bytes = text.as_bytes();
    let ghost t = bytes@;
    let mut out: Vec<u8> = Vec::new();
    let mut index: usize = 0;
    assert(t.skip(0) =~= t);
    while index < bytes.len()
        invariant
            t == bytes@,
            t == encode_utf8(text@),
            index <= t.len(),
            percent_decoding(t.skip(index as int)) matches Some(rest) ==> percent_decoding(t)
                == Some(out@ + rest),
            percent_decoding(t.skip(index as int)) is None ==> percent_decoding(t) is None,
        decreases t.len() - index,
    {
        let ghost s = t.skip(index as int);
        let byte = bytes[index];
        assert(s[0] == byte);
        if byte == 37 {
            if bytes.len() - index < 3 {
                assert(percent_decoding(s) is None);
                return None;
            }
            let high = match nibble(bytes[index + 1]) {
                Some(v) => v,
                None => {
                    assert(s[1] == t[index + 1]);
                    assert(percent_decoding(s) is None);
                    return None;
                },
            };
            let low = match nibble(bytes[index + 2]) {
                Some(v) => v,
                None => {
                    assert(s[2] == t[index + 2]);
                    assert(percent_decoding(s) is None);
                    return None;
                },
            };
            assert(s[1] == t[index + 1] && s[2] == t[index + 2]);
            assert(s.skip(3) =~= t.skip(index + 3));
            let ghost prev = out@;
            out.push(high * 16 + low);
            proof {
                match percent_decoding(t.skip(index + 3)) {
                    Some(rest) => {
                        assert(prev + (seq![(high * 16 + low) as u8] + rest) =~= out@ + rest);
                    },
                    None => {},
                }
            }
            index = index + 3;
        } else {
            assert(s.skip(1) =~= t.skip(index + 1));
            let ghost prev = out@;
            out.push(byte);
            proof {
                match percent_decoding(t.skip(index + 1)) {
                    Some(rest) => {
                        assert(prev + (seq![byte] + rest) =~= out@ + rest);
                    },
                    None => {},
                }
            }
            index = index + 1;
        }
    }
    assert(t.skip(t.len() as int) =~= Seq::<u8>::empty());
    assert(out@ + Seq::<u8>::empty() =~= out@);
    string_from_utf8(out)
}

proof fn lemma_upper_digit_value(n: int)
    requires
        0 <= n < 16,
    ensures
        is_hex_byte(upper_hex_byte(n)),
        hex_byte_value(upper_hex_byte(n)) == n,
{
}

proof fn lemma_byte_from_nibbles(b: u8)
    ensures
        ((b as int / 16) * 16 + b as int % 16) as u8 == b,
        0 <= b as int / 16 < 16,
{
}

/// Decoding the percent encoding of any byte sequence yields that sequence.
pub proof fn lemma_percent_bytes_round_trip(bytes: Seq<u8>)
    ensures
        percent_decoding(percent_encoding(bytes)) == Some(bytes),
    decreases bytes.len(),
{
    if bytes.len() > 0 {
        let x = bytes[0];
        let rest = bytes.drop_first();
        lemma_percent_bytes_round_trip(rest);
        let e = percent_encoding(bytes);
        let p = percent_piece(x);
        assert(e == p + percent_encoding(rest));
        if is_unreserved_byte(x) {
            assert(e[0] == x);
            assert(e.skip(1) =~= percent_encoding(rest));
        } else {
            lemma_upper_digit_value(x as int / 16);
            lemma_upper_digit_value(x as int % 16);
            lemma_byte_from_nibbles(x);
            assert(e[0] == 37u8);
            assert(e[1] == p[1] && e[2] == p[2]);
            assert(e.skip(3) =~= percent_encoding(rest));
        }
        assert(seq![x] + rest =~= bytes);
    } else {
        assert(percent_encoding(bytes) =~= Seq::<u8>::empty());
    }
}

proof fn lemma_percent_encoding_ascii(bytes: Seq<u8>)
    ensures
        forall|i: int|
            0 <= i < percent_encoding(bytes).len() ==> #[trigger] percent_encoding(bytes)[i]
                < 128,
    decreases bytes.len(),
{
    if bytes.len() > 0 {
        lemma_percent_encoding_ascii(bytes.drop_first());
        let p = percent_piece(bytes[0]);
        let r = percent_encoding(bytes.drop_first());
        assert forall|i: int| 0 <= i < (p + r).len() implies #[trigger] (p + r)[i] < 128 by {
            if i >= p.len() {
                assert((p + r)[i] == r[i - p.len()]);
            }
        }
    }
}

/// The characters `encode` returns are ASCII, so their UTF-8 bytes are the
/// percent-encoded bytes themselves.
pub proof fn lemma_encoded_text_bytes(bytes: Seq<u8>)
    ensures
        encode_utf8(bytes_as_chars(percent_encoding(bytes))) == percent_encoding(bytes),
{
    let e = percent_encoding(bytes);
    let c = bytes_as_chars(e);
    lemma_percent_encoding_ascii(bytes);
    assert(is_ascii_chars(c));
    is_ascii_chars_encode_utf8(c);
    assert(encode_utf8(c) =~= e);
}

/// Percent-encoding any text and decoding the result gives back that text:
/// `decode(encode(t)) == Some(t)` for every string.
pub proof fn lemma_percent_round_trip(text: Seq<char>)
    ensures
        percent_decoded_text(bytes_as_chars(percent_encoding(encode_utf8(text)))) == Some(
            text,
        ),
{
    let b = encode_utf8(text);
    lemma_encoded_text_bytes(b);
    lemma_percent_bytes_round_trip(b);
    encode_utf8_valid_utf8(text);
    encode_utf8_decode_utf8(text);
}

} // verus!
