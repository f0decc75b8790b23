//! The `std::text` operations, all by Unicode scalar values (chars): length,
//! trimming, search, splitting, slicing, replacing, joining and the simple
//! one-to-one case mappings.

use vstd::prelude::*;

use crate::strbuf::{chars_of, push_char, push_str};

verus! {

/// Why a text operation has no result.
#[derive(Debug, Clone, Copy, PartialEq, Eq, Structural)]
pub enum TextError {
    NegativeIndex,
    SliceStartAfterEnd,
    SliceOutsideText,
    NoMatch,
}

impl TextError {
    /// The diagnostic text.
    pub fn message(&self) -> (r: &'static str)
        ensures
            r@ == (match self {
                TextError::NegativeIndex => "text index must be non-negative"@,
                TextError::SliceStartAfterEnd => "slice start must be less than or equal to end"@,
                TextError::SliceOutsideText => "slice index is outside the text"@,
                TextError::NoMatch => "`std::text::indexOf` found no match"@,
            }),
    {
        match self {
            TextError::NegativeIndex => "text index must be non-negative",
            TextError::SliceStartAfterEnd => "slice start must be less than or equal to end",
            TextError::SliceOutsideText => "slice index is outside the text",
            TextError::NoMatch => "`std::text::indexOf` found no match",
        }
    }
}

/// The chars from position `from` up to `to`, as text.
pub(crate) fn text_of(chars: &[char], from: usize, to: usize) -> (r: String)
    requires
        from <= to <= chars@.len(),
    ensures
        r@ == chars@.subrange(from as int, to as int),
{
    let mut out = String::new();
    let mut i = from;
    while i < to
        invariant
            from <= i <= to <= chars@.len(),
            out@ == chars@.subrange(from as int, i as int),
        decreases to - i,
    {
        push_char(&mut out, chars[i]);
        assert(chars@.subrange(from as int, i as int + 1) =~= chars@.subrange(from as int, i as int).push(chars@[i as int]));
        i = i + 1;
    }
    out
}

/// `text` as an owned string.
pub fn text_of_str(text: &str) -> (r: String)
    ensures
        r@ == text@,
{
    let mut out = String::new();
    push_str(&mut out, text);
    out
}

/// The number of chars in `text`.
pub fn length(text: &str) -> (r: usize)
    ensures
        r as int == text@.len(),
{
    let chars = chars_of(text);
    chars.len()
}

// ---------------------------------------------------------------------------
// Search.
/// Whether `needle` occurs in `text` starting at char `i`.
pub open spec fn occurs_at(text: Seq<char>, needle: Seq<char>, i: int) -> bool {
    0 <= i && i + needle.len() <= text.len() && text.subrange(i, i + needle.len()) == needle
}

/// The first position at or after `i` where `needle` occurs in `text`.
pub open spec fn first_match_from(text: Seq<char>, needle: Seq<char>, i: int) -> Option<int>
    decreases text.len() + 1 - i,
{
    if i < 0 || i + needle.len() > text.len() {
        None
    } else if occurs_at(text, needle, i) {
        Some(i)
    } else {
        first_match_from(text, needle, i + 1)
    }
}

proof fn lemma_first_match(text: Seq<char>, needle: Seq<char>, i: int)
    requires
        0 <= i,
    ensures
        match first_match_from(text, needle, i) {
            Some(j) => i <= j && occurs_at(text, needle, j) && forall|k: int|
                i <= k < j ==> !occurs_at(text, needle, k),
            None => forall|k: int| i <= k ==> !occurs_at(text, needle, k),
        },
    decreases text.len() + 1 - i,
{
    if i + needle.len() > text.len() {
    } else if !occurs_at(text, needle, i) {
        lemma_first_match(text, needle, i + 1);
    }
}

/// Finds the first position at or after `from` where `needle` occurs.
fn find_from(text: &[char], needle: &[char], from: usize) -> (r: Option<usize>)
    ensures
        match first_match_from(text@, needle@, from as int) {
            Some(j) => r == Some(j as usize),
            None => r is None,
        },
{
    proof {
        lemma_first_match(text@, needle@, from as int);
    }
    let n = text.len();
    let m = needle.len();
    if m > n {
        return None;
    }
    let mut i = from;
    while i <= n - m
        invariant
            n == text@.len(),
            m == needle@.len(),
            m <= n,
            from <= i,
            first_match_from(text@, needle@, i as int) == first_match_from(text@, needle@, from as int),
        decreases n - i,
    {
        let mut k: usize = 0;
        let mut same = true;
        while k < m
            invariant
                n == text@.len(),
                m == needle@.len(),
                i + m <= n,
                k <= m,
                same == (forall|t: int| 0 <= t < k ==> text@[i + t] == needle@[t]),
            decreases m - k,
        {
            if text[i + k] != needle[k] {
                same = false;
            }
            k = k + 1;
        }
        assert(same == occurs_at(text@, needle@, i as int)) by {
            if same {
                assert(text@.subrange(i as int, i + m) =~= needle@);
            } else {
                if occurs_at(text@, needle@, i as int) {
                    assert forall|t: int| 0 <= t < m implies text@[i + t] == needle@[t] by {
                        assert(text@.subrange(i as int, i + m)[t] == text@[i + t]);
                    }
                }
            }
        }
        if same {
            return Some(i);
        }
        i = i + 1;
    }
    None
}

/// Whether `needle` occurs in `text`.
pub fn contains(text: &str, needle: &str) -> (r: bool)
    ensures
        r == exists|i: int| occurs_at(text@, needle@, i),
{
    let t = chars_of(text);
    let n = chars_of(needle);
    let found = find_from(t.as_slice(), n.as_slice(), 0);
    proof {
        lemma_first_match(text@, needle@, 0);
        if let Some(j) = first_match_from(text@, needle@, 0) {
            assert(occurs_at(text@, needle@, j));
        } else {
            assert forall|i: int| !occurs_at(text@, needle@, i) by {
                if i >= 0 {
                }
            }
        }
    }
    found.is_some()
}

/// The char position of the first occurrence of `needle` in `text`; an
/// absent read when there is none.
pub fn index_of(text: &str, needle: &str) -> (r: Result<usize, TextError>)
    ensures
        match first_match_from(text@, needle@, 0) {
            Some(j) => r == Ok::<usize, TextError>(j as usize),
            None => r == Err::<usize, TextError>(TextError::NoMatch),
        },
{
    let t = chars_of(text);
    let n = chars_of(needle);
    match find_from(t.as_slice(), n.as_slice(), 0) {
        Some(j) => Ok(j),
        None => Err(TextError::NoMatch),
    }
}

/// Whether `text` begins with `prefix`.
pub fn starts_with(text: &str, prefix: &str) -> (r: bool)
    ensures
        r == (prefix@.len() <= text@.len() && text@.take(prefix@.len() as int) == prefix@),
{
    let t = chars_of(text);
    let p = chars_of(prefix);
    if p.len() > t.len() {
        return false;
    }
    let mut k: usize = 0;
    while k < p.len()
        invariant
            p@.len() <= t@.len(),
            t@ == text@,
            p@ == prefix@,
            k <= p@.len(),
            forall|j: int| 0 <= j < k ==> t@[j] == p@[j],
        decreases p@.len() - k,
    {
        if t[k] != p[k] {
            assert(text@.take(prefix@.len() as int)[k as int] != prefix@[k as int]);
            return false;
        }
        k = k + 1;
    }
    assert(text@.take(prefix@.len() as int) =~= prefix@);
    true
}

/// Whether `text` ends with `suffix`.
pub fn ends_with(text: &str, suffix: &str) -> (r: bool)
    ensures
        r == (suffix@.len() <= text@.len() && text@.skip(text@.len() - suffix@.len()) == suffix@),
{
    let t = chars_of(text);
    let s = chars_of(suffix);
    if s.len() > t.len() {
        return false;
    }
    let offset = t.len() - s.len();
    let mut k: usize = 0;
    while k < s.len()
        invariant
            s@.len() <= t@.len(),
            t@ == text@,
            s@ == suffix@,
            offset == t@.len() - s@.len(),
            t@.len() == t.len(),
            k <= s@.len(),
            forall|j: int| 0 <= j < k ==> t@[offset + j] == s@[j],
        decreases s@.len() - k,
    {
        if t[offset + k] != s[k] {
            assert(text@.skip(offset as int)[k as int] != suffix@[k as int]);
            return false;
        }
        k = k + 1;
    }
    assert(text@.skip(offset as int) =~= suffix@);
    true
}

// ---------------------------------------------------------------------------
// Slicing.
/// The chars of `text` from position `start` up to `end`: negative positions
/// are refused, then a start after the end, then an end past the text.
pub open spec fn slice_spec(text: Seq<char>, start: int, end: int) -> Result<Seq<char>, TextError> {
    if start < 0 || end < 0 {
        Err(TextError::NegativeIndex)
    } else if start > end {
        Err(TextError::SliceStartAfterEnd)
    } else if end > text.len() {
        Err(TextError::SliceOutsideText)
    } else {
        Ok(text.subrange(start, end))
    }
}

/// The chars of `text` from position `start` up to `end`.
pub fn slice(text: &str, start: i64, end: i64) -> (r: Result<String, TextError>)
    ensures
        match slice_spec(text@, start as int, end as int) {
            Ok(s) => r matches Ok(t) && t@ == s,
            Err(e) => r == Err::<String, TextError>(e),
        },
{
    if start < 0 || end < 0 {
        return Err(TextError::NegativeIndex);
    }
    if start > end {
        return Err(TextError::SliceStartAfterEnd);
    }
    let chars = chars_of(text);
    if end as u64 > chars.len() as u64 {
        return Err(TextError::SliceOutsideText);
    }
    Ok(text_of(chars.as_slice(), start as usize, end as usize))
}

// ---------------------------------------------------------------------------
// Trimming.
/// The Unicode `White_Space` characters.
pub open spec fn is_white_space(c: char) -> bool {
    ||| '\u{9}' <= c <= '\u{d}'
    ||| c == ' '
    ||| c == '\u{85}'
    ||| c == '\u{a0}'
    ||| c == '\u{1680}'
    ||| '\u{2000}' <= c <= '\u{200a}'
    ||| c == '\u{2028}'
    ||| c == '\u{2029}'
    ||| c == '\u{202f}'
    ||| c == '\u{205f}'
    ||| c == '\u{3000}'
}

/// Whether `c` has the Unicode `White_Space` property, as
/// `char::is_whitespace` tells.
fn char_is_whitespace(c: char) -> (r: bool)
    ensures
        r == is_white_space(c),
{
    ('\u{9}' <= c && c <= '\u{d}') || c == ' ' || c == '\u{85}' || c == '\u{a0}' || c == '\u{1680}'
        || ('\u{2000}' <= c && c <= '\u{200a}') || c == '\u{2028}' || c == '\u{2029}' || c
        == '\u{202f}' || c == '\u{205f}' || c == '\u{3000}'
}

/// The position of the first char that is not white space.
pub open spec fn trim_start_index(text: Seq<char>) -> int
    decreases text.len(),
{
    if text.len() == 0 || !is_white_space(text[0]) {
        0
    } else {
        1 + trim_start_index(text.drop_first())
    }
}

/// The position just after the last char that is not white space.
pub open spec fn trim_end_index(text: Seq<char>) -> int
    decreases text.len(),
{
    if text.len() == 0 || !is_white_space(text.last()) {
        text.len() as int
    } else {
        trim_end_index(text.drop_last())
    }
}

/// `text` without its leading and trailing white space.
pub open spec fn trimmed(text: Seq<char>) -> Seq<char> {
    let s = trim_start_index(text);
    let e = trim_end_index(text);
    if s >= e {
        Seq::empty()
    } else {
        text.subrange(s, e)
    }
}

proof fn lemma_trim_start(text: Seq<char>, i: int)
    requires
        0 <= i <= text.len(),
        forall|k: int| 0 <= k < i ==> is_white_space(#[trigger] text[k]),
        i == text.len() || !is_white_space(text[i]),
    ensures
        trim_start_index(text) == i,
    decreases text.len(),
{
    if i > 0 {
        let t = text.drop_first();
        assert forall|k: int| 0 <= k < i - 1 implies is_white_space(#[trigger] t[k]) by {
            assert(t[k] == text[k + 1]);
        }
        if i < text.len() {
            assert(t[i - 1] == text[i]);
        }
        lemma_trim_start(t, i - 1);
    }
}

proof fn lemma_trim_end(text: Seq<char>, j: int)
    requires
        0 <= j <= text.len(),
        forall|k: int| j <= k < text.len() ==> is_white_space(#[trigger] text[k]),
        j == 0 || !is_white_space(text[j - 1]),
    ensures
        trim_end_index(text) == j,
    decreases text.len(),
{
    if j < text.len() {
        let t = text.drop_last();
        assert forall|k: int| j <= k < t.len() implies is_white_space(#[trigger] t[k]) by {
            assert(t[k] == text[k]);
        }
        assert(is_white_space(text[text.len() - 1]));
        if j > 0 {
            assert(t[j - 1] == text[j - 1]);
        }
        lemma_trim_end(t, j);
    }
}

/// `text` without its leading and trailing white space.
pub fn trim(text: &str) -> (r: String)
    ensures
        r@ == trimmed(text@),
{
    let chars = chars_of(text);
    let n = chars.len();
    let mut s: usize = 0;
    while s < n && char_is_whitespace(chars[s])
        invariant
            n == chars@.len(),
            s <= n,
            forall|k: int| 0 <= k < s ==> is_white_space(#[trigger] chars@[k]),
        decreases n - s,
    {
        s = s + 1;
    }
    proof {
        lemma_trim_start(chars@, s as int);
    }
    let mut e: usize = n;
    while e > 0 && char_is_whitespace(chars[e - 1])
        invariant
            n == chars@.len(),
            e <= n,
            forall|k: int| e <= k < n ==> is_white_space(#[trigger] chars@[k]),
        decreases e,
    {
        e = e - 1;
    }
    proof {
        lemma_trim_end(chars@, e as int);
    }
    if s >= e {
        return String::new();
    }
    text_of(chars.as_slice(), s, e)
}

// ---------------------------------------------------------------------------
// Splitting, replacing and joining.
/// The pieces of `text` from position `start` on between the occurrences of
/// a non-empty separator, left to right.
pub open spec fn split_pieces(text: Seq<char>, sep: Seq<char>, start: int) -> Seq<Seq<char>>
    decreases text.len() + 1 - start,
{
    if sep.len() == 0 || start < 0 || start > text.len() {
        Seq::empty()
    } else {
        match first_match_from(text, sep, start) {
            None => seq![text.subrange(start, text.len() as int)],
            Some(j) => if j < start || j + sep.len() > text.len() {
                Seq::empty()
            } else {
                seq![text.subrange(start, j)] + split_pieces(text, sep, j + sep.len())
            },
        }
    }
}

/// `text` split at every occurrence of `sep`; an empty separator splits
/// around every char, with an empty piece at both ends.
pub open spec fn split_spec(text: Seq<char>, sep: Seq<char>) -> Seq<Seq<char>> {
    if sep.len() == 0 {
        seq![Seq::<char>::empty()] + text.map_values(|c: char| seq![c]) + seq![Seq::<char>::empty()]
    } else {
        split_pieces(text, sep, 0)
    }
}

/// The pieces of a split, by their chars.
pub open spec fn strings_view(parts: Seq<String>) -> Seq<Seq<char>> {
    parts.map_values(|s: String| s@)
}

/// `text` split at every occurrence of `sep`.
pub fn split(text: &str, sep: &str) -> (r: Vec<String>)
    ensures
        strings_view(r@) == split_spec(text@, sep@),
{
    let t = chars_of(text);
    let s = chars_of(sep);
    let n = t.len();
    let mut parts: Vec<String> = Vec::new();
    if s.len() == 0 {
        parts.push(String::new());
        let mut i: usize = 0;
        while i < n
            invariant
                n == t@.len(),
                i <= n,
                strings_view(parts@) == seq![Seq::<char>::empty()] + t@.take(i as int).map_values(
                    |c: char| seq![c],
                ),
            decreases n - i,
        {
            let piece = text_of(t.as_slice(), i, i + 1);
            proof {
                assert(t@.subrange(i as int, i + 1) =~= seq![t@[i as int]]);
                assert(strings_view(parts@.push(piece)) =~= strings_view(parts@).push(piece@));
                assert(t@.take(i + 1).map_values(|c: char| seq![c]) =~= t@.take(i as int).map_values(
                    |c: char| seq![c],
                ).push(seq![t@[i as int]]));
            }
            parts.push(piece);
            i = i + 1;
        }
        let last = String::new();
        proof {
            assert(strings_view(parts@.push(last)) =~= strings_view(parts@).push(last@));
            assert(t@.take(n as int) =~= text@);
        }
        parts.push(last);
        return parts;
    }
    let mut start: usize = 0;
    loop
        invariant
            n == t@.len(),
            t@ == text@,
            s@ == sep@,
            s@.len() > 0,
            start <= n,
            strings_view(parts@) + split_pieces(t@, s@, start as int) == split_pieces(t@, s@, 0),
        decreases n + 1 - start,
    {
        proof {
            lemma_first_match(t@, s@, start as int);
        }
        match find_from(t.as_slice(), s.as_slice(), start) {
            None => {
                let piece = text_of(t.as_slice(), start, n);
                proof {
                    assert(strings_view(parts@.push(piece)) =~= strings_view(parts@).push(piece@));
                    assert(strings_view(parts@) + split_pieces(t@, s@, start as int) =~= strings_view(parts@).push(piece@));
                }
                parts.push(piece);
                return parts;
            },
            Some(j) => {
                let piece = text_of(t.as_slice(), start, j);
                let next = j + s.len();
                proof {
                    assert(strings_view(parts@.push(piece)) =~= strings_view(parts@).push(piece@));
                    assert(strings_view(parts@) + split_pieces(t@, s@, start as int) =~= strings_view(
                        parts@,
                    ).push(piece@) + split_pieces(t@, s@, next as int));
                }
                parts.push(piece);
                start = next;
            },
        }
    }
}

/// The text from position `start` on with every occurrence of a non-empty
/// `from` replaced by `to`, left to right.
pub open spec fn replace_pieces(text: Seq<char>, from: Seq<char>, to: Seq<char>, start: int) -> Seq<char>
    decreases text.len() + 1 - start,
{
    if from.len() == 0 || start < 0 || start > text.len() {
        Seq::empty()
    } else {
        match first_match_from(text, from, start) {
            None => text.subrange(start, text.len() as int),
            Some(j) => if j < start || j + from.len() > text.len() {
                Seq::empty()
            } else {
                text.subrange(start, j) + to + replace_pieces(text, from, to, j + from.len())
            },
        }
    }
}

/// `to` after every char, as an empty `from` matches at every char boundary.
pub open spec fn interleave(text: Seq<char>, to: Seq<char>) -> Seq<char>
    decreases text.len(),
{
    if text.len() == 0 {
        Seq::empty()
    } else {
        interleave(text.drop_last(), to) + seq![text.last()] + to
    }
}

/// `text` with every occurrence of `from` replaced by `to`; an empty `from`
/// matches at every char boundary, both ends included.
pub open spec fn replace_spec(text: Seq<char>, from: Seq<char>, to: Seq<char>) -> Seq<char> {
    if from.len() == 0 {
        to + interleave(text, to)
    } else {
        replace_pieces(text, from, to, 0)
    }
}

/// `text` with every occurrence of `from` replaced by `to`.
pub fn replace(text: &str, from: &str, to: &str) -> (r: String)
    ensures
        r@ == replace_spec(text@, from@, to@),
{
    let t = chars_of(text);
    let f = chars_of(from);
    let n = t.len();
    let mut out = String::new();
    if f.len() == 0 {
        push_str(&mut out, to);
        let mut i: usize = 0;
        while i < n
            invariant
                n == t@.len(),
                i <= n,
                out@ == to@ + interleave(t@.take(i as int), to@),
            decreases n - i,
        {
            push_char(&mut out, t[i]);
            push_str(&mut out, to);
            proof {
                assert(t@.take(i + 1).drop_last() =~= t@.take(i as int));
                assert(out@ =~= to@ + interleave(t@.take(i + 1), to@));
            }
            i = i + 1;
        }
        assert(t@.take(n as int) =~= text@);
        return out;
    }
    let mut start: usize = 0;
    loop
        invariant
            n == t@.len(),
            t@ == text@,
            f@ == from@,
            f@.len() > 0,
            start <= n,
            out@ + replace_pieces(t@, f@, to@, start as int) == replace_pieces(t@, f@, to@, 0),
        decreases n + 1 - start,
    {
        proof {
            lemma_first_match(t@, f@, start as int);
        }
        match find_from(t.as_slice(), f.as_slice(), start) {
            None => {
                let piece = text_of(t.as_slice(), start, n);
                push_str(&mut out, piece.as_str());
                return out;
            },
            Some(j) => {
                let piece = text_of(t.as_slice(), start, j);
                let next = j + f.len();
                let ghost before = out@;
                push_str(&mut out, piece.as_str());
                push_str(&mut out, to);
                proof {
                    assert(before + replace_pieces(t@, f@, to@, start as int) =~= out@ + replace_pieces(
                        t@,
                        f@,
                        to@,
                        next as int,
                    ));
                }
                start = next;
            },
        }
    }
}

/// `parts` joined with `sep` between each two.
pub open spec fn join_spec(parts: Seq<Seq<char>>, sep: Seq<char>) -> Seq<char>
    decreases parts.len(),
{
    if parts.len() == 0 {
        Seq::empty()
    } else if parts.len() == 1 {
        parts[0]
    } else {
        join_spec(parts.drop_last(), sep) + sep + parts.last()
    }
}

/// `parts` joined with `sep` between each two.
pub fn join(parts: &[String], sep: &str) -> (r: String)
    ensures
        r@ == join_spec(strings_view(parts@), sep@),
{
    let mut out = String::new();
    let mut i: usize = 0;
    while i < parts.len()
        invariant
            i <= parts@.len(),
            out@ == join_spec(strings_view(parts@.take(i as int)), sep@),
        decreases parts@.len() - i,
    {
        let ghost prefix = strings_view(parts@.take(i as int));
        proof {
            assert(strings_view(parts@.take(i + 1)) =~= prefix.push(parts@[i as int]@));
            assert(strings_view(parts@.take(i + 1)).drop_last() =~= prefix);
        }
        if i > 0 {
            push_str(&mut out, sep);
        } else {
            assert(prefix =~= Seq::<Seq<char>>::empty());
        }
        push_str(&mut out, parts[i].as_str());
        i = i + 1;
    }
    assert(parts@.take(parts@.len() as int) =~= parts@);
    out
}

proof fn lemma_join_cons(a: Seq<char>, rest: Seq<Seq<char>>, sep: Seq<char>)
    requires
        rest.len() >= 1,
    ensures
        join_spec(seq![a] + rest, sep) == a + sep + join_spec(rest, sep),
    decreases rest.len(),
{
    let all = seq![a] + rest;
    assert(all.last() == rest.last());
    if rest.len() == 1 {
        assert(all.drop_last() =~= seq![a]);
        assert(join_spec(seq![a], sep) == a);
        assert(join_spec(rest, sep) == rest[0]);
    } else {
        assert(all.drop_last() =~= seq![a] + rest.drop_last());
        lemma_join_cons(a, rest.drop_last(), sep);
        assert(join_spec(all, sep) =~= a + sep + join_spec(rest, sep));
    }
}

proof fn lemma_join_split_from(text: Seq<char>, sep: Seq<char>, start: int)
    requires
        sep.len() > 0,
        0 <= start <= text.len(),
    ensures
        split_pieces(text, sep, start).len() >= 1,
        join_spec(split_pieces(text, sep, start), sep) == text.subrange(start, text.len() as int),
    decreases text.len() + 1 - start,
{
    lemma_first_match(text, sep, start);
    match first_match_from(text, sep, start) {
        None => {},
        Some(j) => {
            let next = j + sep.len();
            lemma_join_split_from(text, sep, next);
            let rest = split_pieces(text, sep, next);
            lemma_join_cons(text.subrange(start, j), rest, sep);
            assert(text.subrange(j, next) == sep);
            assert(text.subrange(start, j) + sep + text.subrange(next, text.len() as int)
                =~= text.subrange(start, text.len() as int));
        },
    }
}

proof fn lemma_join_chars(text: Seq<char>)
    ensures
        join_spec(seq![Seq::<char>::empty()] + text.map_values(|c: char| seq![c]), Seq::empty())
            == text,
    decreases text.len(),
{
    let pieces = seq![Seq::<char>::empty()] + text.map_values(|c: char| seq![c]);
    if text.len() > 0 {
        let shorter = text.drop_last();
        lemma_join_chars(shorter);
        assert(pieces.drop_last() =~= seq![Seq::<char>::empty()] + shorter.map_values(
            |c: char| seq![c],
        ));
        assert(pieces.last() == seq![text.last()]);
        assert(join_spec(pieces, Seq::empty()) =~= shorter + Seq::<char>::empty() + seq![text.last()]);
        assert(shorter + Seq::<char>::empty() + seq![text.last()] =~= text);
    } else {
        assert(pieces =~= seq![Seq::<char>::empty()]);
    }
}

/// Joining the pieces of a split with the separator it split at gives back
/// the text, for every separator.
pub proof fn lemma_join_split(text: Seq<char>, sep: Seq<char>)
    ensures
        join_spec(split_spec(text, sep), sep) == text,
{
    if sep.len() > 0 {
        lemma_join_split_from(text, sep, 0);
        assert(text.subrange(0, text.len() as int) =~= text);
    } else {
        lemma_join_chars(text);
        let inner = seq![Seq::<char>::empty()] + text.map_values(|c: char| seq![c]);
        let pieces = split_spec(text, sep);
        assert(sep =~= Seq::<char>::empty());
        assert(pieces.drop_last() =~= inner);
        assert(join_spec(pieces, sep) =~= text);
    }
}

// ---------------------------------------------------------------------------
// Case mapping.
/// The full Unicode uppercase mapping of `c`, one or more chars.
pub uninterp spec fn unicode_uppercase(c: char) -> Seq<char>;

/// The full Unicode lowercase mapping of `c`, one or more chars.
pub uninterp spec fn unicode_lowercase(c: char) -> Seq<char>;

/// `char::to_uppercase`: the chars of the full uppercase mapping of `c`,
/// which are one or more (`c` itself when it has no mapping).
#[verifier::external_body]
fn char_to_uppercase(c: char) -> (r: Vec<char>)
    ensures
        r@ == unicode_uppercase(c),
        r@.len() >= 1,
{
    c.to_uppercase().collect()
}

/// `char::to_lowercase`: the chars of the full lowercase mapping of `c`,
/// which are one or more (`c` itself when it has no mapping).
#[verifier::external_body]
fn char_to_lowercase(c: char) -> (r: Vec<char>)
    ensures
        r@ == unicode_lowercase(c),
        r@.len() >= 1,
{
    c.to_lowercase().collect()
}

/// The Greek capitals with prosgegrammeni that the simple mapping gives the
/// iota-subscript letters whose full mapping is two chars.
pub open spec fn greek_titlecase_shift(c: char) -> bool {
    ('\u{1F80}' <= c <= '\u{1F87}') || ('\u{1F90}' <= c <= '\u{1F97}') || ('\u{1FA0}' <= c
        <= '\u{1FA7}')
}

/// The simple (one char to one char) uppercase mapping: the Greek letters
/// with iota subscript map to their capitals with prosgegrammeni; every other
/// char maps as its full mapping does when that is a single char, and is
/// kept otherwise.
pub open spec fn simple_uppercase_spec(c: char) -> char {
    if greek_titlecase_shift(c) {
        ((c as u32) + 8) as char
    } else if c == '\u{1FB3}' {
        '\u{1FBC}'
    } else if c == '\u{1FC3}' {
        '\u{1FCC}'
    } else if c == '\u{1FF3}' {
        '\u{1FFC}'
    } else if unicode_uppercase(c).len() == 1 {
        unicode_uppercase(c)[0]
    } else {
        c
    }
}

/// The simple (one char to one char) lowercase mapping: `İ` maps to `i`;
/// every other char maps as its full mapping does when that is a single
/// char, and is kept otherwise.
pub open spec fn simple_lowercase_spec(c: char) -> char {
    if c == '\u{130}' {
        'i'
    } else if unicode_lowercase(c).len() == 1 {
        unicode_lowercase(c)[0]
    } else {
        c
    }
}

/// `char::from_u32`: the char whose scalar value is `u`, if `u` is one.
#[verifier::external_body]
fn char_from_u32(u: u32) -> (r: Option<char>)
    ensures
        vstd::utf8::is_scalar(u) ==> r == Some(u as char),
        !vstd::utf8::is_scalar(u) ==> r is None,
{
    char::from_u32(u)
}

/// The simple uppercase mapping of one char.
pub fn simple_uppercase(value: char) -> (r: char)
    ensures
        r == simple_uppercase_spec(value),
{
    if ('\u{1F80}' <= value && value <= '\u{1F87}') || ('\u{1F90}' <= value && value <= '\u{1F97}')
        || ('\u{1FA0}' <= value && value <= '\u{1FA7}') {
        let shifted = value as u32 + 8;
        return match char_from_u32(shifted) {
            Some(c) => c,
            None => value,
        };
    }
    if value == '\u{1FB3}' {
        return '\u{1FBC}';
    }
    if value == '\u{1FC3}' {
        return '\u{1FCC}';
    }
    if value == '\u{1FF3}' {
        return '\u{1FFC}';
    }
    let mapped = char_to_uppercase(value);
    if mapped.len() == 1 {
        mapped[0]
    } else {
        value
    }
}

/// The simple lowercase mapping of one char.
pub fn simple_lowercase(value: char) -> (r: char)
    ensures
        r == simple_lowercase_spec(value),
{
    if value == '\u{130}' {
        return 'i';
    }
    let mapped = char_to_lowercase(value);
    if mapped.len() == 1 {
        mapped[0]
    } else {
        value
    }
}

/// `text` with every char mapped by the simple uppercase mapping.
pub fn to_upper(text: &str) -> (r: String)
    ensures
        r@ == text@.map_values(|c: char| simple_uppercase_spec(c)),
{
    let chars = chars_of(text);
    let mut out = String::new();
    let mut i: usize = 0;
    while i < chars.len()
        invariant
            i <= chars@.len(),
            chars@ == text@,
            out@ == chars@.take(i as int).map_values(|c: char| simple_uppercase_spec(c)),
        decreases chars@.len() - i,
    {
        let c = simple_uppercase(chars[i]);
        push_char(&mut out, c);
        assert(chars@.take(i + 1).map_values(|c: char| simple_uppercase_spec(c)) =~= chars@.take(
            i as int,
        ).map_values(|c: char| simple_uppercase_spec(c)).push(c));
        i = i + 1;
    }
    assert(chars@.take(chars@.len() as int) =~= chars@);
    out
}

/// `text` with every char mapped by the simple lowercase mapping.
pub fn to_lower(text: &str) -> (r: String)
    ensures
        r@ == text@.map_values(|c: char| simple_lowercase_spec(c)),
{
    let chars = chars_of(text);
    let mut out = String::new();
    let mut i: usize = 0;
    while i < chars.len()
        invariant
            i <= chars@.len(),
            chars@ == text@,
            out@ == chars@.take(i as int).map_values(|c: char| simple_lowercase_spec(c)),
        decreases chars@.len() - i,
    {
        let c = simple_lowercase(chars[i]);
        push_char(&mut out, c);
        assert(chars@.take(i + 1).map_values(|c: char| simple_lowercase_spec(c)) =~= chars@.take(
            i as int,
        ).map_values(|c: char| simple_lowercase_spec(c)).push(c));
        i = i + 1;
    }
    assert(chars@.take(chars@.len() as int) =~= chars@);
    out
}

} // verus!
