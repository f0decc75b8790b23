//! The one canonical spelling of an `int` in text: an optional `-`, then
//! decimal digits with no leading zero (but `0` itself), no `+`, no `-0`, and
//! a value inside the signed 64-bit envelope.

use vstd::prelude::*;

use crate::strbuf::{chars_of, push_char};

verus! {

/// Whether a character is an ASCII decimal digit.
pub open spec fn is_digit_char(c: char) -> bool {
    '0' <= c <= '9'
}

/// The value of a run of decimal digit characters, most significant first.
pub open spec fn digit_chars_value(s: Seq<char>) -> int
    decreases s.len(),
{
    if s.len() == 0 {
        0
    } else {
        digit_chars_value(s.drop_last()) * 10 + (s.last() as int - '0' as int)
    }
}

/// A non-empty run of digits without a superfluous leading zero, and its value.
pub open spec fn canonical_magnitude(s: Seq<char>) -> Option<int> {
    if s.len() > 0 && (forall|i: int| 0 <= i < s.len() ==> is_digit_char(#[trigger] s[i])) && (
    s[0] != '0' || s.len() == 1) {
        Some(digit_chars_value(s))
    } else {
        None
    }
}

/// The value that the canonical spelling `s` denotes, or `None` when `s` is
/// not one.
pub open spec fn canonical_int(s: Seq<char>) -> Option<int> {
    if s.len() > 0 && s[0] == '-' {
        match canonical_magnitude(s.drop_first()) {
            Some(v) => if 0 < v && -v >= i64::MIN {
                Some(-v)
            } else {
                None
            },
            None => None,
        }
    } else {
        match canonical_magnitude(s) {
            Some(v) => if v <= i64::MAX {
                Some(v)
            } else {
                None
            },
            None => None,
        }
    }
}

/// A run of digits has a value of at least zero.
pub proof fn lemma_digit_chars_value_nonneg(s: Seq<char>)
    requires
        forall|i: int| 0 <= i < s.len() ==> is_digit_char(#[trigger] s[i]),
    ensures
        digit_chars_value(s) >= 0,
    decreases s.len(),
{
    if s.len() > 0 {
        lemma_digit_chars_value_nonneg(s.drop_last());
    }
}

/// A longer prefix of digits never has a smaller value.
proof fn lemma_digit_value_monotone(s: Seq<char>, i: int, j: int)
    requires
        0 <= i <= j <= s.len(),
        forall|k: int| 0 <= k < s.len() ==> is_digit_char(#[trigger] s[k]),
    ensures
        digit_chars_value(s.take(i)) <= digit_chars_value(s.take(j)),
    decreases j - i,
{
    if i < j {
        lemma_digit_value_monotone(s, i, j - 1);
        assert(s.take(j).drop_last() =~= s.take(j - 1));
        lemma_digit_chars_value_nonneg(s.take(j - 1));
    }
}

/// Reads the canonical spelling of a magnitude; `None` when the text is not
/// one or its value passes `2^63`.
fn parse_magnitude(s: &[char]) -> (r: Option<u64>)
    ensures
        match r {
            Some(v) => canonical_magnitude(s@) == Some(v as int) && v <= 0x8000_0000_0000_0000u64,
            None => canonical_magnitude(s@) is None || canonical_magnitude(s@).unwrap()
                > 0x8000_0000_0000_0000u64,
        },
{
    let n = s.len();
    if n == 0 {
        return None;
    }
    if s[0] == '0' && n > 1 {
        return None;
    }
    let mut acc: u64 = 0;
    let mut i: usize = 0;
    while i < n
        invariant
            n == s@.len(),
            0 <= i <= n,
            n > 0,
            s@[0] != '0' || n == 1,
            forall|k: int| 0 <= k < i ==> is_digit_char(#[trigger] s@[k]),
            acc as int == digit_chars_value(s@.take(i as int)),
            acc <= 0x8000_0000_0000_0000u64,
        decreases n - i,
    {
        let c = s[i];
        if !('0' <= c && c <= '9') {
            return None;
        }
        let d: u64 = (c as u32 - '0' as u32) as u64;
        assert(s@.take(i as int + 1).drop_last() =~= s@.take(i as int));
        if acc > (0x8000_0000_0000_0000u64 - d) / 10 {
            proof {
                let ghost v = digit_chars_value(s@.take(i as int + 1));
                assert(v == acc * 10 + d);
                assert(v > 0x8000_0000_0000_0000u64) by (nonlinear_arith)
                    requires
                        v == acc * 10 + d,
                        acc > (0x8000_0000_0000_0000u64 - d) / 10,
                        d <= 9,
                ;
                let ghost allc = forall|k: int| 0 <= k < n ==> is_digit_char(#[trigger] s@[k]);
                if allc {
                    lemma_digit_value_monotone(s@, i as int + 1, n as int);
                    assert(s@.take(n as int) =~= s@);
                }
            }
            return None;
        }
        acc = acc * 10 + d;
        i = i + 1;
    }
    assert(s@.take(n as int) =~= s@);
    Some(acc)
}

/// Reads an `int` written in its one canonical spelling.
pub fn parse_canonical_int(text: &str) -> (r: Option<i64>)
    ensures
        match r {
            Some(v) => canonical_int(text@) == Some(v as int),
            None => canonical_int(text@) is None,
        },
{
    let chars = chars_of(text);
    let n = chars.len();
    if n > 0 && chars[0] == '-' {
        let digits = chars.as_slice().split_at(1).1;
        assert(digits@ =~= text@.drop_first());
        match parse_magnitude(digits) {
            Some(v) => {
                if v == 0 {
                    None
                } else if v == 0x8000_0000_0000_0000u64 {
                    Some(i64::MIN)
                } else {
                    Some(-(v as i64))
                }
            },
            None => None,
        }
    } else {
        match parse_magnitude(chars.as_slice()) {
            Some(v) => {
                if v > i64::MAX as u64 {
                    None
                } else {
                    Some(v as i64)
                }
            },
            None => None,
        }
    }
}


/// The decimal digit character for a value in `0..10`.
pub open spec fn digit_char(d: int) -> char {
    (d + '0' as int) as char
}

/// The decimal spelling of a natural number, most significant digit first.
pub open spec fn decimal_chars(n: nat) -> Seq<char>
    decreases n,
{
    if n < 10 {
        seq![digit_char(n as int)]
    } else {
        decimal_chars(n / 10).push(digit_char((n % 10) as int))
    }
}

/// The decimal spelling of an integer, with `-` before a negative one.
pub open spec fn signed_decimal_chars(v: int) -> Seq<char> {
    if v < 0 {
        seq!['-'] + decimal_chars((-v) as nat)
    } else {
        decimal_chars(v as nat)
    }
}

/// Appends the decimal spelling of `n`.
pub fn push_decimal(out: &mut String, n: u64)
    ensures
        final(out)@ == old(out)@ + decimal_chars(n as nat),
    decreases n,
{
    if n >= 10 {
        push_decimal(out, n / 10);
    }
    let d = (n % 10) as u8;
    let c = (d + 48) as char;
    assert(c == digit_char((n % 10) as int));
    push_char(out, c);
    assert(out@ =~= old(out)@ + decimal_chars(n as nat));
}

/// The decimal spelling of `n`.
pub fn u64_text(n: u64) -> (r: String)
    ensures
        r@ == decimal_chars(n as nat),
{
    let mut out = String::new();
    push_decimal(&mut out, n);
    out
}

/// The decimal spelling of `v`, with `-` before a negative value.
pub fn i64_text(v: i64) -> (r: String)
    ensures
        r@ == signed_decimal_chars(v as int),
{
    let mut out = String::new();
    if v < 0 {
        push_char(&mut out, '-');
        let magnitude: u64 = if v == i64::MIN {
            0x8000_0000_0000_0000u64
        } else {
            (-v) as u64
        };
        push_decimal(&mut out, magnitude);
    } else {
        push_decimal(&mut out, v as u64);
    }
    out
}

} // verus!
