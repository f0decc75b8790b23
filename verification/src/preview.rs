//! Bounded previews of values for diagnostics: text cut to a number of chars,
//! quoted and escaped text, and bytes as `0x`-hex.

use vstd::prelude::*;

use crate::hex::{encode, hex_encoding, lower_hex_digit};
use crate::strbuf::{chars_of, push_char, push_str};

verus! {

/// How many chars or bytes of a scalar a diagnostic shows.
pub const DIAGNOSTIC_PREVIEW_SCALAR_LIMIT: usize = 64;

/// `text` cut after `limit` chars, with `...` marking the cut.
pub open spec fn truncated_preview(text: Seq<char>, limit: nat) -> Seq<char> {
    if text.len() > limit {
        text.take(limit as int) + "..."@
    } else {
        text
    }
}

/// `text` cut after `limit` chars, with `...` marking the cut.
pub fn truncate_preview_chars(text: &str, limit: usize) -> (r: String)
    ensures
        r@ == truncated_preview(text@, limit as nat),
{
    let chars = chars_of(text);
    let mut out = String::new();
    let mut i: usize = 0;
    while i < chars.len()
        invariant
            i <= chars@.len(),
            i <= limit,
            chars@ == text@,
            out@ == chars@.take(i as int),
        decreases chars@.len() - i,
    {
        if i == limit {
            push_str(&mut out, "...");
            return out;
        }
        push_char(&mut out, chars[i]);
        assert(chars@.take(i + 1) =~= chars@.take(i as int).push(chars@[i as int]));
        i = i + 1;
    }
    assert(chars@.take(i as int) =~= chars@);
    out
}

/// The lowercase hex digits of `n`, without leading zeros.
pub open spec fn hex_digits(n: nat) -> Seq<char>
    decreases n,
{
    if n < 16 {
        seq![lower_hex_digit(n as int)]
    } else {
        hex_digits(n / 16).push(lower_hex_digit((n % 16) as int))
    }
}

/// `char::escape_default`: tab, CR and LF as `\t`, `\r`, `\n`; quote,
/// apostrophe and backslash behind a backslash; other printable ASCII as
/// itself; every other char as `\u{...}` with its lowercase hex scalar value.
pub open spec fn escape_default(c: char) -> Seq<char> {
    if c == '\t' {
        seq!['\\', 't']
    } else if c == '\r' {
        seq!['\\', 'r']
    } else if c == '\n' {
        seq!['\\', 'n']
    } else if c == '\'' || c == '"' || c == '\\' {
        seq!['\\', c]
    } else if ' ' <= c <= '~' {
        seq![c]
    } else {
        seq!['\\', 'u', '{'] + hex_digits(c as nat) + seq!['}']
    }
}

/// Every char of `text` escaped, one after another.
pub open spec fn escaped(text: Seq<char>) -> Seq<char>
    decreases text.len(),
{
    if text.len() == 0 {
        Seq::empty()
    } else {
        escaped(text.drop_last()) + escape_default(text.last())
    }
}

/// Appends the lowercase hex digits of `n`.
fn push_hex_digits(out: &mut String, n: u32)
    ensures
        final(out)@ == old(out)@ + hex_digits(n as nat),
    decreases n,
{
    if n >= 16 {
        push_hex_digits(out, n / 16);
    }
    let d = (n % 16) as u8;
    let c = if d < 10 {
        (d + 48) as char
    } else {
        (d + 87) as char
    };
    assert(c == lower_hex_digit((n % 16) as int));
    push_char(out, c);
    assert(out@ =~= old(out)@ + hex_digits(n as nat));
}

/// Appends `c` as `char::escape_default` spells it.
fn push_escaped(out: &mut String, c: char)
    ensures
        final(out)@ == old(out)@ + escape_default(c),
{
    let ghost before = out@;
    if c == '\t' {
        push_str(out, "\\t");
    } else if c == '\r' {
        push_str(out, "\\r");
    } else if c == '\n' {
        push_str(out, "\\n");
    } else if c == '\'' || c == '"' || c == '\\' {
        push_char(out, '\\');
        push_char(out, c);
    } else if ' ' <= c && c <= '~' {
        push_char(out, c);
    } else {
        push_str(out, "\\u{");
        push_hex_digits(out, c as u32);
        push_char(out, '}');
    }
    proof {
        reveal_strlit("\\t");
        reveal_strlit("\\r");
        reveal_strlit("\\n");
        reveal_strlit("\\u{");
    }
    assert(out@ =~= before + escape_default(c));
}

/// A quoted, escaped preview of `text`: its first
/// `DIAGNOSTIC_PREVIEW_SCALAR_LIMIT` chars, then `...` when it is longer.
pub open spec fn text_preview(text: Seq<char>) -> Seq<char> {
    if text.len() > DIAGNOSTIC_PREVIEW_SCALAR_LIMIT {
        seq!['"'] + escaped(text.take(DIAGNOSTIC_PREVIEW_SCALAR_LIMIT as int)) + "..."@ + seq!['"']
    } else {
        seq!['"'] + escaped(text) + seq!['"']
    }
}

/// A quoted, escaped preview of `text`, cut after
/// `DIAGNOSTIC_PREVIEW_SCALAR_LIMIT` chars.
pub fn diagnostic_text_preview(text: &str) -> (r: String)
    ensures
        r@ == text_preview(text@),
{
    let chars = chars_of(text);
    let mut rendered = String::new();
    push_char(&mut rendered, '"');
    let mut i: usize = 0;
    while i < chars.len()
        invariant
            i <= chars@.len(),
            i <= DIAGNOSTIC_PREVIEW_SCALAR_LIMIT,
            chars@ == text@,
            rendered@ == seq!['"'] + escaped(chars@.take(i as int)),
        decreases chars@.len() - i,
    {
        if i == DIAGNOSTIC_PREVIEW_SCALAR_LIMIT {
            push_str(&mut rendered, "...");
            push_char(&mut rendered, '"');
            return rendered;
        }
        push_escaped(&mut rendered, chars[i]);
        proof {
            assert(chars@.take(i + 1).drop_last() =~= chars@.take(i as int));
            assert(rendered@ =~= seq!['"'] + escaped(chars@.take(i + 1)));
        }
        i = i + 1;
    }
    assert(chars@.take(i as int) =~= chars@);
    push_char(&mut rendered, '"');
    rendered
}

/// Bytes as `0x` and their lowercase hex.
pub fn render_bytes_hex(bytes: &[u8]) -> (r: String)
    ensures
        r@ == "0x"@ + hex_encoding(bytes@),
{
    let mut text = String::new();
    push_str(&mut text, "0x");
    let hex = encode(bytes);
    push_str(&mut text, hex.as_str());
    text
}

/// A `0x`-hex preview of bytes: their first `DIAGNOSTIC_PREVIEW_SCALAR_LIMIT`
/// bytes, then `...` when there are more.
pub open spec fn bytes_preview(bytes: Seq<u8>) -> Seq<char> {
    if bytes.len() <= DIAGNOSTIC_PREVIEW_SCALAR_LIMIT {
        "0x"@ + hex_encoding(bytes)
    } else {
        "0x"@ + hex_encoding(bytes.take(DIAGNOSTIC_PREVIEW_SCALAR_LIMIT as int)) + "..."@
    }
}

/// A `0x`-hex preview of bytes, cut after
/// `DIAGNOSTIC_PREVIEW_SCALAR_LIMIT` bytes.
pub fn diagnostic_bytes_preview(bytes: &[u8]) -> (r: String)
    ensures
        r@ == bytes_preview(bytes@),
{
    if bytes.len() <= DIAGNOSTIC_PREVIEW_SCALAR_LIMIT {
        return render_bytes_hex(bytes);
    }
    let head = vstd::slice::slice_subrange(bytes, 0, DIAGNOSTIC_PREVIEW_SCALAR_LIMIT);
    assert(head@ =~= bytes@.take(DIAGNOSTIC_PREVIEW_SCALAR_LIMIT as int));
    let mut text = render_bytes_hex(head);
    push_str(&mut text, "...");
    text
}

} // verus!
