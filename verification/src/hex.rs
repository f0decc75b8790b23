//! The one canonical lowercase hex codec, shared by the `std::bytes` hex
//! helpers and the deterministic UUID rendering.
//!
//! Encoding always emits lowercase digits; decoding accepts either case so it
//! is a true inverse of any conventional hex spelling.

use vstd::prelude::*;
use vstd::utf8::*;

use crate::strbuf::push_char;

verus! {

/// The lowercase hex digit for a value in `0..16`.
pub open spec fn lower_hex_digit(n: int) -> char {
    if n < 10 {
        (n + 48) as char
    } else {
        (n + 87) as char
    }
}

/// The two lowercase hex digits of one byte, high nibble first.
pub open spec fn hex_pair(byte: u8) -> Seq<char> {
    seq![lower_hex_digit(byte as int / 16), lower_hex_digit(byte as int % 16)]
}

/// The lowercase hex text of a byte sequence.
pub open spec fn hex_encoding(data: Seq<u8>) -> Seq<char>
    decreases data.len(),
{
    if data.len() == 0 {
        Seq::empty()
    } else {
        hex_encoding(data.drop_last()) + hex_pair(data.last())
    }
}

/// Whether `b` is an ASCII hex digit of either case.
pub open spec fn is_hex_byte(b: u8) -> bool {
    (48 <= b <= 57) || (97 <= b <= 102) || (65 <= b <= 70)
}

/// The value of an ASCII hex digit of either case.
pub open spec fn hex_byte_value(b: u8) -> int {
    if 48 <= b <= 57 {
        b - 48
    } else if 97 <= b <= 102 {
        b - 87
    } else {
        b - 55
    }
}

/// Hex decoding of raw text bytes: `None` for an odd length or any non-hex
/// byte, otherwise one byte per pair of digits.
pub open spec fn hex_decoding(text: Seq<u8>) -> Option<Seq<u8>> {
    if text.len() % 2 == 0 && forall|i: int| 0 <= i < text.len() ==> is_hex_byte(#[trigger] text[i]) {
        Some(
            Seq::new(
                (text.len() / 2) as nat,
                |i: int| (hex_byte_value(text[2 * i]) * 16 + hex_byte_value(text[2 * i + 1])) as u8,
            ),
        )
    } else {
        None
    }
}

/// ASCII lowercasing of one byte.
pub open spec fn ascii_lower(b: u8) -> u8 {
    if 65 <= b <= 90 {
        (b + 32) as u8
    } else {
        b
    }
}

fn lower_digit(n: u8) -> (c: char)
    requires
        n < 16,
    ensures
        c == lower_hex_digit(n as int),
{
    if n < 10 {
        (n + 48) as char
    } else {
        (n + 87) as char
    }
}

/// Encode bytes as lowercase hex.
pub fn encode(data: &[u8]) -> (out: String)
    ensures
        out@ == hex_encoding(data@),
{
    let mut out = String::new();
    let mut i: usize = 0;
    while i < data.len()
        invariant
            i <= data@.len(),
            out@ == hex_encoding(data@.take(i as int)),
        decreases data@.len() - i,
    {
        let byte = data[i];
        push_char(&mut out, lower_digit(byte / 16));
        push_char(&mut out, lower_digit(byte % 16));
        assert(data@.take(i as int + 1).drop_last() =~= data@.take(i as int));
        i = i + 1;
    }
    assert(data@.take(data@.len() as int) =~= data@);
    out
}

/// The value of one ASCII hex digit, or `None` for any other byte.
fn nibble(byte: u8) -> (r: Option<u8>)
    ensures
        r == (if is_hex_byte(byte) {
            Some(hex_byte_value(byte) as u8)
        } else {
            None::<u8>
        }),
{
    if byte >= 48 && byte <= 57 {
        Some(byte - 48)
    } else if byte >= 97 && byte <= 102 {
        Some(byte - 87)
    } else if byte >= 65 && byte <= 70 {
        Some(byte - 55)
    } else {
        None
    }
}

/// Decode hex text, or `None` for an odd length or any non-hex character.
pub fn decode(text: &str) -> (r: Option<Vec<u8>>)
    ensures
        r is Some <==> hex_decoding(encode_utf8(text@)) is Some,
        r matches Some(v) ==> hex_decoding(encode_utf8(text@)) == Some(v@),
{
    let bytes = text.as_bytes();
    let ghost b = bytes@;
    assert(b == encode_utf8(text@));
    if bytes.len() % 2 != 0 {
        return None;
    }
    let mut out: Vec<u8> = Vec::new();
    let mut i: usize = 0;
    while i < bytes.len() / 2
        invariant
            b == bytes@,
            b == encode_utf8(text@),
            b.len() % 2 == 0,
            i <= b.len() / 2,
            forall|j: int| 0 <= j < 2 * i ==> is_hex_byte(#[trigger] b[j]),
            out@.len() == i,
            forall|j: int|
                0 <= j < i ==> #[trigger] out@[j] == (hex_byte_value(b[2 * j]) * 16
                    + hex_byte_value(b[2 * j + 1])) as u8,
        decreases b.len() / 2 - i,
    {
        let high = match nibble(bytes[2 * i]) {
            Some(v) => v,
            None => {
                assert(!is_hex_byte(b[2 * i as int]));
                assert(hex_decoding(b) is None);
                return None;
            },
        };
        let low = match nibble(bytes[2 * i + 1]) {
            Some(v) => v,
            None => {
                assert(!is_hex_byte(b[2 * i as int + 1]));
                assert(hex_decoding(b) is None);
                return None;
            },
        };
        out.push(high * 16 + low);
        i = i + 1;
    }
    assert(out@ =~= hex_decoding(b).unwrap());
    Some(out)
}

/// The lowercase hex encoding of `data` is `2 * |data|` digits, the high
/// and low nibble of each byte in turn.
pub proof fn lemma_hex_encoding_index(data: Seq<u8>)
    ensures
        hex_encoding(data).len() == 2 * data.len(),
        forall|i: int|
            #![trigger data[i]]
            0 <= i < data.len() ==> hex_encoding(data)[2 * i] == lower_hex_digit(
                data[i] as int / 16,
            ) && hex_encoding(data)[2 * i + 1] == lower_hex_digit(data[i] as int % 16),
    decreases data.len(),
{
    if data.len() > 0 {
        lemma_hex_encoding_index(data.drop_last());
        let prev = hex_encoding(data.drop_last());
        let pair = hex_pair(data.last());
        assert(hex_encoding(data) == prev + pair);
        assert forall|i: int| #![trigger data[i]] 0 <= i < data.len() implies hex_encoding(data)[2 * i]
            == lower_hex_digit(data[i] as int / 16) && hex_encoding(data)[2 * i + 1]
            == lower_hex_digit(data[i] as int % 16) by {
            if i < data.len() - 1 {
                assert(data.drop_last()[i] == data[i]);
                assert((prev + pair)[2 * i] == prev[2 * i]);
                assert((prev + pair)[2 * i + 1] == prev[2 * i + 1]);
            } else {
                assert((prev + pair)[2 * i] == pair[0]);
                assert((prev + pair)[2 * i + 1] == pair[1]);
            }
        }
    }
}

/// Every character of a hex encoding is an ASCII character.
pub proof fn lemma_hex_encoding_ascii(data: Seq<u8>)
    ensures
        is_ascii_chars(hex_encoding(data)),
{
    lemma_hex_encoding_index(data);
    let e = hex_encoding(data);
    assert forall|k: int| 0 <= k < e.len() implies '\0' <= #[trigger] e[k] <= '\u{7f}' by {
        let i = k / 2;
        if k == 2 * i {
            assert(e[2 * i] == lower_hex_digit(data[i] as int / 16));
        } else {
            assert(k == 2 * i + 1);
            assert(e[2 * i + 1] == lower_hex_digit(data[i] as int % 16));
        }
    }
}

/// Decoding what `encode` produced gives back the same bytes: the hex
/// codec round-trips every byte sequence.
pub proof fn lemma_hex_round_trip(data: Seq<u8>)
    ensures
        hex_decoding(encode_utf8(hex_encoding(data))) == Some(data),
{
    lemma_hex_encoding_index(data);
    lemma_hex_encoding_ascii(data);
    let e = hex_encoding(data);
    let b = encode_utf8(e);
    is_ascii_chars_encode_utf8(e);
    assert forall|k: int| 0 <= k < b.len() implies is_hex_byte(#[trigger] b[k]) by {
        let i = k / 2;
        assert(e[k] as u8 == b[k]);
        if k == 2 * i {
            assert(e[2 * i] == lower_hex_digit(data[i] as int / 16));
        } else {
            assert(k == 2 * i + 1);
            assert(e[2 * i + 1] == lower_hex_digit(data[i] as int % 16));
        }
    }
    assert(b.len() % 2 == 0);
    let d = hex_decoding(b).unwrap();
    assert forall|i: int| 0 <= i < data.len() implies #[trigger] d[i] == data[i] by {
        assert(e[2 * i] as u8 == b[2 * i]);
        assert(e[2 * i + 1] as u8 == b[2 * i + 1]);
    }
    assert(d =~= data);
}

proof fn lemma_byte_from_nibbles(h: int, l: int)
    requires
        0 <= h < 16,
        0 <= l < 16,
    ensures
        ((h * 16 + l) as u8) as int / 16 == h,
        ((h * 16 + l) as u8) as int % 16 == l,
{
    assert(0 <= h * 16 + l < 256) by (nonlinear_arith)
        requires
            0 <= h < 16,
            0 <= l < 16,
    ;
    assert((h * 16 + l) / 16 == h && (h * 16 + l) % 16 == l) by (nonlinear_arith)
        requires
            0 <= h < 16,
            0 <= l < 16,
    ;
}

proof fn lemma_digit_of_hex_byte(t: u8)
    requires
        is_hex_byte(t),
    ensures
        0 <= hex_byte_value(t) < 16,
        lower_hex_digit(hex_byte_value(t)) as u8 == ascii_lower(t),
{
}

/// Decoding accepts either case and re-encoding gives the lowercase spelling
/// of the accepted text: decode is an inverse of any conventional spelling.
pub proof fn lemma_hex_decode_then_encode(text: Seq<u8>)
    requires
        hex_decoding(text) is Some,
    ensures
        encode_utf8(hex_encoding(hex_decoding(text).unwrap())) == text.map_values(
            |b: u8| ascii_lower(b),
        ),
{
    let d = hex_decoding(text).unwrap();
    lemma_hex_encoding_index(d);
    lemma_hex_encoding_ascii(d);
    let e = hex_encoding(d);
    is_ascii_chars_encode_utf8(e);
    let b = encode_utf8(e);
    let lowered = text.map_values(|b: u8| ascii_lower(b));
    assert forall|k: int| 0 <= k < b.len() implies #[trigger] b[k] == lowered[k] by {
        let i = k / 2;
        assert(e[k] as u8 == b[k]);
        assert(is_hex_byte(text[2 * i]));
        assert(is_hex_byte(text[2 * i + 1]));
        lemma_digit_of_hex_byte(text[2 * i]);
        lemma_digit_of_hex_byte(text[2 * i + 1]);
        lemma_byte_from_nibbles(hex_byte_value(text[2 * i]), hex_byte_value(text[2 * i + 1]));
        assert(d[i] == (hex_byte_value(text[2 * i]) * 16 + hex_byte_value(text[2 * i + 1])) as u8);
        if k == 2 * i {
            assert(e[2 * i] == lower_hex_digit(d[i] as int / 16));
        } else {
            assert(k == 2 * i + 1);
            assert(e[2 * i + 1] == lower_hex_digit(d[i] as int % 16));
        }
    }
    assert(b =~= lowered);
}

} // verus!
