//! Input parsing for duration and time-of-day text.
//!
//! User-facing input — `std::clock::parseDuration` and the `duration(text)`
//! constructor, and the time portion of an RFC-3339 instant — accepts the
//! standard spellings and normalizes them to a canonical value. Durations
//! accept the time-based ISO-8601 subset `PnDTnHnMnS` of exact fixed spans,
//! summing each component to signed nanoseconds; nominal year/month components
//! are calendar-ambiguous and refused.
//!
//! Every delimiter of these grammars is ASCII, so the parsers work on the UTF-8
//! bytes of the text: a non-ASCII character only ever appears as bytes that
//! match no delimiter and no digit.

use vstd::prelude::*;
use vstd::utf8::*;

use crate::strbuf::push_str;

verus! {

pub const NANOS_PER_SEC: i128 = 1_000_000_000;

pub const NANOS_PER_MINUTE: i128 = 60_000_000_000;

pub const NANOS_PER_HOUR: i128 = 3_600_000_000_000;

pub const NANOS_PER_DAY: i128 = 86_400_000_000_000;

/// Why an ISO-8601 duration string was rejected, so the boundary can render the
/// right diagnostic: a calendar component carries a clarifying note, while any
/// other malformed text falls back to the generic invalid-text message.
#[derive(Debug, Clone, Copy, PartialEq, Eq, Structural)]
pub enum DurationParseError {
    /// A nominal year or month component, which has no exact nanosecond width.
    CalendarAmbiguous,
    /// Any other unparseable or out-of-range text.
    Malformed,
}

/// The note appended to a calendar-ambiguous diagnostic.
pub open spec fn calendar_note() -> Seq<char> {
    " (calendar-ambiguous; Marrow durations are exact spans \u{2014} use days/hours/minutes/seconds)"@
}

impl DurationParseError {
    /// Renders a boundary diagnostic for rejected duration text by extending a
    /// caller-supplied base message: a calendar component appends the clarifying
    /// note that Marrow durations are exact spans, while any other malformed text
    /// keeps the generic message unchanged.
    pub fn message(&self, base: &str) -> (r: String)
        ensures
            r@ == (match self {
                DurationParseError::CalendarAmbiguous => base@ + calendar_note(),
                DurationParseError::Malformed => base@,
            }),
    {
        let mut out = String::new();
        push_str(&mut out, base);
        match self {
            DurationParseError::CalendarAmbiguous => {
                push_str(
                    &mut out,
                    " (calendar-ambiguous; Marrow durations are exact spans \u{2014} use days/hours/minutes/seconds)",
                );
            },
            DurationParseError::Malformed => {},
        }
        out
    }
}

pub open spec fn is_digit(b: u8) -> bool {
    48 <= b <= 57
}

pub open spec fn all_digits(s: Seq<u8>) -> bool {
    forall|i: int| 0 <= i < s.len() ==> is_digit(#[trigger] s[i])
}

/// The decimal value of a digit string (0 for the empty string).
pub open spec fn digits_value(s: Seq<u8>) -> int
    decreases s.len(),
{
    if s.len() == 0 {
        0
    } else {
        digits_value(s.drop_last()) * 10 + (s.last() - 48)
    }
}

pub open spec fn fits_i128(x: int) -> bool {
    i128::MIN <= x <= i128::MAX
}

/// The index of the first occurrence of `b` in `s`.
pub open spec fn first_index_of(s: Seq<u8>, b: u8) -> Option<int>
    decreases s.len(),
{
    if s.len() == 0 {
        None
    } else if s[0] == b {
        Some(0)
    } else {
        match first_index_of(s.drop_first(), b) {
            Some(k) => Some(k + 1),
            None => None,
        }
    }
}

pub open spec fn pow10(n: nat) -> int
    decreases n,
{
    if n == 0 {
        1
    } else {
        10 * pow10((n - 1) as nat)
    }
}

/// An all-digit unsigned count with no leading zero that fits `i128`.
pub open spec fn unsigned_count(s: Seq<u8>) -> Result<int, DurationParseError> {
    if s.len() == 0 || !all_digits(s) || (s.len() > 1 && s[0] == 48) || digits_value(s)
        > i128::MAX {
        Err(DurationParseError::Malformed)
    } else {
        Ok(digits_value(s))
    }
}

/// `magnitude + count * width` under the `i128` envelope.
pub open spec fn add_component_spec(magnitude: int, count: int, width: int) -> Result<
    int,
    DurationParseError,
> {
    if fits_i128(count * width) && fits_i128(magnitude + count * width) {
        Ok(magnitude + count * width)
    } else {
        Err(DurationParseError::Malformed)
    }
}

/// The text with its trailing `0` digits removed.
pub open spec fn trim_trailing_zeros(s: Seq<u8>) -> Seq<u8>
    decreases s.len(),
{
    if s.len() > 0 && s.last() == 48 {
        trim_trailing_zeros(s.drop_last())
    } else {
        s
    }
}

/// A fractional-second field as nanoseconds: only the significant digits
/// (trailing zeros trimmed) must fit nine places.
pub open spec fn fraction_nanos(s: Seq<u8>) -> Option<int> {
    if s.len() == 0 || !all_digits(s) {
        None
    } else {
        let sig = trim_trailing_zeros(s);
        if sig.len() > 9 {
            None
        } else {
            Some(digits_value(sig) * pow10((9 - sig.len()) as nat))
        }
    }
}

/// The whole date-position field, required to be exactly `<digits><unit>`.
pub open spec fn duration_component(field: Seq<u8>, unit: u8) -> Result<int, DurationParseError> {
    if field.contains(89u8) || field.contains(77u8) {
        Err(DurationParseError::CalendarAmbiguous)
    } else if field.len() > 0 && field.last() == unit {
        unsigned_count(field.drop_last())
    } else {
        Err(DurationParseError::Malformed)
    }
}

/// An optional leading `<digits><unit>` of a time-position field and the text
/// after it.
pub open spec fn optional_component(field: Seq<u8>, unit: u8) -> Result<
    (Option<int>, Seq<u8>),
    DurationParseError,
> {
    if field.contains(89u8) {
        Err(DurationParseError::CalendarAmbiguous)
    } else {
        match first_index_of(field, unit) {
            Some(k) => match unsigned_count(field.take(k)) {
                Ok(v) => Ok((Some(v), field.skip(k + 1))),
                Err(e) => Err(e),
            },
            None => Ok((None, field)),
        }
    }
}

/// The trailing seconds component `<digits>[.<fraction>]S` in nanoseconds.
pub open spec fn seconds_component(field: Seq<u8>) -> Result<int, DurationParseError> {
    if field.len() == 0 || field.last() != 83u8 {
        Err(DurationParseError::Malformed)
    } else {
        let body = field.drop_last();
        let (seconds, fraction) = match first_index_of(body, 46u8) {
            Some(k) => (body.take(k), Some(body.skip(k + 1))),
            None => (body, None::<Seq<u8>>),
        };
        match unsigned_count(seconds) {
            Err(e) => Err(e),
            Ok(s) => {
                let f = match fraction {
                    None => Some(0int),
                    Some(d) => fraction_nanos(d),
                };
                match f {
                    None => Err(DurationParseError::Malformed),
                    Some(f) => if fits_i128(s * 1_000_000_000) && fits_i128(
                        s * 1_000_000_000 + f,
                    ) {
                        Ok(s * 1_000_000_000 + f)
                    } else {
                        Err(DurationParseError::Malformed)
                    },
                }
            },
        }
    }
}

/// The time part after `T`: optional hours, optional minutes, optional seconds,
/// added in that order to `magnitude`. Yields the new magnitude and whether any
/// component was present.
pub open spec fn time_part_spec(magnitude: int, time: Seq<u8>) -> Result<
    (int, bool),
    DurationParseError,
> {
    if time.len() == 0 {
        Err(DurationParseError::Malformed)
    } else {
        match optional_component(time, 72u8) {
            Err(e) => Err(e),
            Ok((hours, rest)) => match optional_component(rest, 77u8) {
                Err(e) => Err(e),
                Ok((minutes, rest)) => {
                    let after_hours = match hours {
                        Some(h) => add_component_spec(magnitude, h, NANOS_PER_HOUR as int),
                        None => Ok(magnitude),
                    };
                    match after_hours {
                        Err(e) => Err(e),
                        Ok(m1) => {
                            let after_minutes = match minutes {
                                Some(mm) => add_component_spec(m1, mm, NANOS_PER_MINUTE as int),
                                None => Ok(m1),
                            };
                            match after_minutes {
                                Err(e) => Err(e),
                                Ok(m2) => if rest.len() == 0 {
                                    Ok((m2, hours is Some || minutes is Some))
                                } else {
                                    match seconds_component(rest) {
                                        Err(e) => Err(e),
                                        Ok(sn) => if fits_i128(m2 + sn) {
                                            Ok((m2 + sn, true))
                                        } else {
                                            Err(DurationParseError::Malformed)
                                        },
                                    }
                                },
                            }
                        },
                    }
                },
            },
        }
    }
}

/// The time-based ISO-8601 duration subset `[-]PnDTnHnMnS` as signed
/// nanoseconds. Negative zero has no canonical spelling and is refused.
pub open spec fn duration_nanos(text: Seq<u8>) -> Result<int, DurationParseError> {
    let negative = text.len() > 0 && text[0] == 45u8;
    let body = if negative {
        text.skip(1)
    } else {
        text
    };
    if body.len() == 0 || body[0] != 80u8 {
        Err(DurationParseError::Malformed)
    } else {
        let body = body.skip(1);
        let (date, time) = match first_index_of(body, 84u8) {
            Some(k) => (body.take(k), Some(body.skip(k + 1))),
            None => (body, None::<Seq<u8>>),
        };
        let after_date = if date.len() > 0 {
            match duration_component(date, 68u8) {
                Err(e) => Err(e),
                Ok(days) => match add_component_spec(0, days, NANOS_PER_DAY as int) {
                    Err(e) => Err(e),
                    Ok(m) => Ok((m, true)),
                },
            }
        } else {
            Ok((0int, false))
        };
        let after_time = match after_date {
            Err(e) => Err(e),
            Ok((m, any)) => match time {
                None => Ok((m, any)),
                Some(t) => match time_part_spec(m, t) {
                    Err(e) => Err(e),
                    Ok((m2, any2)) => Ok((m2, any || any2)),
                },
            },
        };
        match after_time {
            Err(e) => Err(e),
            Ok((m, any)) => if !any {
                Err(DurationParseError::Malformed)
            } else if negative && m == 0 {
                Err(DurationParseError::Malformed)
            } else if negative {
                Ok(-m)
            } else {
                Ok(m)
            },
        }
    }
}

/// A leading `-` negates a duration: `-<body>` spells the negation of the
/// span `<body>` spells, fails as `<body>` fails, and is refused where
/// `<body>` spells the zero span, which has no negative spelling.
pub proof fn lemma_negated_duration(body: Seq<u8>)
    requires
        body.len() == 0 || body[0] != 45u8,
    ensures
        duration_nanos(seq![45u8] + body) == (match duration_nanos(body) {
            Ok(v) => if v == 0 {
                Err(DurationParseError::Malformed)
            } else {
                Ok(-v)
            },
            Err(e) => Err(e),
        }),
{
    assert((seq![45u8] + body).skip(1) =~= body);
    assert((seq![45u8] + body)[0] == 45u8);
}

proof fn lemma_present_component(x: Seq<u8>, u: u8, y: Seq<u8>, v: int)
    requires
        unsigned_count(x) == Ok::<int, DurationParseError>(v),
        !is_digit(u),
        u != 89u8,
        forall|i: int| 0 <= i < y.len() ==> y[i] != 89u8,
    ensures
        optional_component(x + seq![u] + y, u) == Ok::<(Option<int>, Seq<u8>), DurationParseError>(
            (Some(v), y),
        ),
{
    let f = x + seq![u] + y;
    assert forall|i: int| 0 <= i < f.len() implies f[i] != 89u8 by {
        if i < x.len() {
            assert(f[i] == x[i] && is_digit(x[i]));
        } else if i > x.len() {
            assert(f[i] == y[i - x.len() - 1]);
        }
    }
    assert(!f.contains(89u8));
    assert forall|j: int| 0 <= j < x.len() implies f[j] != u by {
        assert(f[j] == x[j] && is_digit(x[j]));
    }
    lemma_first_index_found(f, u, x.len() as int);
    assert(f.take(x.len() as int) =~= x);
    assert(f.skip(x.len() as int + 1) =~= y);
}

proof fn lemma_whole_seconds(sd: Seq<u8>, sec: int)
    requires
        unsigned_count(sd) == Ok::<int, DurationParseError>(sec),
        0 <= sec * NANOS_PER_SEC <= i128::MAX,
    ensures
        seconds_component(sd + seq![83u8]) == Ok::<int, DurationParseError>(sec * NANOS_PER_SEC),
{
    let field = sd + seq![83u8];
    assert(field.drop_last() =~= sd);
    assert forall|j: int| 0 <= j < sd.len() implies sd[j] != 46u8 by {
        assert(is_digit(sd[j]));
    }
    lemma_first_index_absent(sd, 46u8);
}

/// An optional `<digits><unit>` component of a duration's text.
pub open spec fn component_text(digits: Option<Seq<u8>>, unit: u8) -> Seq<u8> {
    match digits {
        Some(d) => d + seq![unit],
        None => Seq::empty(),
    }
}

/// The count an optional component gives: its number, or nothing when absent.
pub open spec fn component_count(digits: Option<Seq<u8>>, count: int) -> bool {
    match digits {
        Some(d) => unsigned_count(d) == Ok::<int, DurationParseError>(count),
        None => count == 0,
    }
}

proof fn lemma_absent_component(f: Seq<u8>, u: u8)
    requires
        forall|i: int| 0 <= i < f.len() ==> f[i] != 89u8 && f[i] != u,
    ensures
        optional_component(f, u) == Ok::<(Option<int>, Seq<u8>), DurationParseError>((None, f)),
{
    assert(!f.contains(89u8));
    lemma_first_index_absent(f, u);
}

proof fn lemma_component_bytes(digits: Option<Seq<u8>>, unit: u8, count: int)
    requires
        component_count(digits, count),
    ensures
        count >= 0,
        forall|i: int|
            0 <= i < component_text(digits, unit).len() ==> (#[trigger] component_text(digits, unit)[i]
                == unit || is_digit(component_text(digits, unit)[i])),
{
    if let Some(d) = digits {
        lemma_digits_value_nonneg(d);
        assert forall|i: int|
            0 <= i < component_text(digits, unit).len() implies (#[trigger] component_text(
            digits,
            unit,
        )[i] == unit || is_digit(component_text(digits, unit)[i])) by {
            if i < d.len() {
                assert(component_text(digits, unit)[i] == d[i]);
            }
        }
    }
}

proof fn lemma_component_step(digits: Option<Seq<u8>>, unit: u8, count: int, rest: Seq<u8>)
    requires
        component_count(digits, count),
        !is_digit(unit),
        unit != 89u8,
        forall|i: int| 0 <= i < rest.len() ==> rest[i] != 89u8,
        digits is None ==> forall|i: int| 0 <= i < rest.len() ==> rest[i] != unit,
    ensures
        optional_component(component_text(digits, unit) + rest, unit) == Ok::<
            (Option<int>, Seq<u8>),
            DurationParseError,
        >((if digits is Some { Some(count) } else { None }, rest)),
{
    match digits {
        Some(d) => {
            assert(component_text(digits, unit) + rest =~= d + seq![unit] + rest);
            lemma_present_component(d, unit, rest, count);
        },
        None => {
            assert(component_text(digits, unit) + rest =~= rest);
            lemma_absent_component(rest, unit);
        },
    }
}

/// Every present component of a time part adds its count times its fixed
/// width, whichever others are present: `PT[<h>H][<m>M][<s>S]`, with at
/// least one component, is `h` hours, `m` minutes and `s` seconds (an absent
/// component counting none), where each count is a canonical unsigned number
/// and the total fits.
pub proof fn lemma_time_components_duration(
    hours: Option<Seq<u8>>,
    minutes: Option<Seq<u8>>,
    seconds: Option<Seq<u8>>,
    h: int,
    m: int,
    sec: int,
)
    requires
        component_count(hours, h),
        component_count(minutes, m),
        component_count(seconds, sec),
        hours is Some || minutes is Some || seconds is Some,
        h * NANOS_PER_HOUR + m * NANOS_PER_MINUTE + sec * NANOS_PER_SEC <= i128::MAX,
    ensures
        duration_nanos(seq![80u8, 84u8] + component_text(hours, 72u8) + component_text(minutes, 77u8)
            + component_text(seconds, 83u8)) == Ok::<int, DurationParseError>(h * NANOS_PER_HOUR + m
            * NANOS_PER_MINUTE + sec * NANOS_PER_SEC),
{
    let ht = component_text(hours, 72u8);
    let mt = component_text(minutes, 77u8);
    let st = component_text(seconds, 83u8);
    let after_h = mt + st;
    let t = ht + after_h;
    lemma_time_part_components(hours, minutes, seconds, h, m, sec);
    let text = seq![80u8, 84u8] + ht + mt + st;
    assert(text =~= seq![80u8, 84u8] + t);
    assert(text[0] == 80u8);
    let body = text.skip(1);
    assert(body =~= seq![84u8] + t);
    lemma_first_index_found(body, 84u8, 0);
    assert(body.take(0) =~= Seq::<u8>::empty());
    assert(body.skip(1) =~= t);
}

proof fn lemma_time_part_components(
    hours: Option<Seq<u8>>,
    minutes: Option<Seq<u8>>,
    seconds: Option<Seq<u8>>,
    h: int,
    m: int,
    sec: int,
)
    requires
        component_count(hours, h),
        component_count(minutes, m),
        component_count(seconds, sec),
        hours is Some || minutes is Some || seconds is Some,
        h * NANOS_PER_HOUR + m * NANOS_PER_MINUTE + sec * NANOS_PER_SEC <= i128::MAX,
    ensures
        time_part_spec(
            0,
            component_text(hours, 72u8) + (component_text(minutes, 77u8) + component_text(
                seconds,
                83u8,
            )),
        ) == Ok::<(int, bool), DurationParseError>(
            (h * NANOS_PER_HOUR + m * NANOS_PER_MINUTE + sec * NANOS_PER_SEC, true),
        ),
{
    let ht = component_text(hours, 72u8);
    let mt = component_text(minutes, 77u8);
    let st = component_text(seconds, 83u8);
    let after_h = mt + st;
    let t = ht + after_h;
    lemma_component_bytes(hours, 72u8, h);
    lemma_component_bytes(minutes, 77u8, m);
    lemma_component_bytes(seconds, 83u8, sec);
    assert(h * NANOS_PER_HOUR >= 0 && m * NANOS_PER_MINUTE >= 0 && sec * NANOS_PER_SEC >= 0)
        by (nonlinear_arith)
        requires
            h >= 0,
            m >= 0,
            sec >= 0,
    ;
    assert forall|i: int| 0 <= i < st.len() implies st[i] != 89u8 && st[i] != 77u8 && st[i]
        != 72u8 by {
        assert(st[i] == 83u8 || is_digit(st[i]));
    }
    lemma_component_step(minutes, 77u8, m, st);
    assert forall|i: int| 0 <= i < after_h.len() implies after_h[i] != 89u8 && after_h[i]
        != 72u8 by {
        if i < mt.len() {
            assert(after_h[i] == mt[i]);
            assert(mt[i] == 77u8 || is_digit(mt[i]));
        } else {
            assert(after_h[i] == st[i - mt.len()]);
        }
    }
    lemma_component_step(hours, 72u8, h, after_h);
    assert(t.len() > 0);
    if let Some(sd) = seconds {
        lemma_whole_seconds(sd, sec);
        assert(st.len() > 0);
    } else {
        assert(st.len() == 0);
    }
}

proof fn lemma_digits_value_nonneg(s: Seq<u8>)
    requires
        all_digits(s),
    ensures
        digits_value(s) >= 0,
    decreases s.len(),
{
    if s.len() > 0 {
        lemma_digits_value_nonneg(s.drop_last());
    }
}

/// The exec form of [`first_index_of`].
fn find_byte(s: &[u8], b: u8) -> (r: Option<usize>)
    ensures
        r matches Some(k) ==> first_index_of(s@, b) == Some(k as int),
        r matches Some(k) ==> k < s@.len(),
        r is None ==> first_index_of(s@, b) is None,
{
    let mut i: usize = 0;
    while i < s.len()
        invariant
            i <= s@.len(),
            forall|j: int| 0 <= j < i ==> s@[j] != b,
        decreases s@.len() - i,
    {
        if s[i] == b {
            proof {
                lemma_first_index_found(s@, b, i as int);
            }
            return Some(i);
        }
        i = i + 1;
    }
    proof {
        lemma_first_index_absent(s@, b);
    }
    None
}

proof fn lemma_first_index_found(s: Seq<u8>, b: u8, i: int)
    requires
        0 <= i < s.len(),
        s[i] == b,
        forall|j: int| 0 <= j < i ==> s[j] != b,
    ensures
        first_index_of(s, b) == Some(i),
    decreases s.len(),
{
    if i > 0 {
        lemma_first_index_found(s.drop_first(), b, i - 1);
    }
}

proof fn lemma_first_index_absent(s: Seq<u8>, b: u8)
    requires
        forall|j: int| 0 <= j < s.len() ==> s[j] != b,
    ensures
        first_index_of(s, b) is None,
    decreases s.len(),
{
    if s.len() > 0 {
        lemma_first_index_absent(s.drop_first(), b);
    }
}

/// Whether `s` holds the byte `b`.
fn contains_byte(s: &[u8], b: u8) -> (r: bool)
    ensures
        r == s@.contains(b),
{
    let mut i: usize = 0;
    while i < s.len()
        invariant
            i <= s@.len(),
            forall|j: int| 0 <= j < i ==> s@[j] != b,
        decreases s@.len() - i,
    {
        if s[i] == b {
            return true;
        }
        i = i + 1;
    }
    false
}

/// Whether every byte of `s` is an ASCII digit.
fn is_all_digits(s: &[u8]) -> (r: bool)
    ensures
        r == all_digits(s@),
{
    let mut i: usize = 0;
    while i < s.len()
        invariant
            i <= s@.len(),
            forall|j: int| 0 <= j < i ==> is_digit(#[trigger] s@[j]),
        decreases s@.len() - i,
    {
        if !(s[i] >= 48 && s[i] <= 57) {
            return false;
        }
        i = i + 1;
    }
    true
}

proof fn lemma_digits_value_monotone(s: Seq<u8>, k: int)
    requires
        all_digits(s),
        0 <= k <= s.len(),
    ensures
        digits_value(s.take(k)) <= digits_value(s),
    decreases s.len() - k,
{
    if k < s.len() {
        lemma_digits_value_monotone(s, k + 1);
        assert(s.take(k + 1).drop_last() =~= s.take(k));
        assert(all_digits(s.take(k)));
        lemma_digits_value_nonneg(s.take(k));
    } else {
        assert(s.take(k) =~= s);
    }
}

/// The value of a non-empty all-digit string, or `None` past `i128::MAX`.
fn digits_to_i128(s: &[u8]) -> (r: Option<i128>)
    requires
        all_digits(s@),
    ensures
        r matches Some(v) ==> v == digits_value(s@),
        r is None <==> digits_value(s@) > i128::MAX,
{
    let mut value: i128 = 0;
    let mut i: usize = 0;
    while i < s.len()
        invariant
            i <= s@.len(),
            all_digits(s@),
            value == digits_value(s@.take(i as int)),
        decreases s@.len() - i,
    {
        let d = (s[i] - 48) as i128;
        assert(s@.take(i as int + 1).drop_last() =~= s@.take(i as int));
        proof {
            lemma_digits_value_nonneg(s@.take(i as int));
            assert(all_digits(s@.take(i as int + 1)));
        }
        match value.checked_mul(10) {
            Some(t) => match t.checked_add(d) {
                Some(n) => {
                    value = n;
                },
                None => {
                    proof {
                        lemma_digits_value_monotone(s@, i as int + 1);
                    }
                    return None;
                },
            },
            None => {
                proof {
                    lemma_digits_value_monotone(s@, i as int + 1);
                }
                return None;
            },
        }
        i = i + 1;
    }
    assert(s@.take(s@.len() as int) =~= s@);
    Some(value)
}

/// Parses an all-digit unsigned count with no leading zero, so a non-canonical
/// spelling like `01` is malformed. Empty input or any non-digit byte is
/// malformed.
fn parse_unsigned_count(digits: &[u8]) -> (r: Result<i128, DurationParseError>)
    ensures
        r matches Ok(v) ==> unsigned_count(digits@) == Ok::<int, DurationParseError>(v as int),
        r matches Err(e) ==> unsigned_count(digits@) == Err::<int, DurationParseError>(e),
        r matches Ok(v) ==> v >= 0,
{
    if digits.len() == 0 || !is_all_digits(digits) {
        return Err(DurationParseError::Malformed);
    }
    if digits.len() > 1 && digits[0] == 48 {
        return Err(DurationParseError::Malformed);
    }
    proof {
        lemma_digits_value_nonneg(digits@);
    }
    match digits_to_i128(digits) {
        Some(v) => Ok(v),
        None => Err(DurationParseError::Malformed),
    }
}

/// Multiplies a component count by its fixed nanosecond width and adds it to
/// the running magnitude under the `i128` overflow envelope.
fn add_component(magnitude: i128, count: i128, width: i128) -> (r: Result<i128, DurationParseError>)
    ensures
        r matches Ok(v) ==> add_component_spec(magnitude as int, count as int, width as int)
            == Ok::<int, DurationParseError>(v as int),
        r matches Err(e) ==> add_component_spec(magnitude as int, count as int, width as int)
            == Err::<int, DurationParseError>(e),
        r matches Ok(v) ==> (magnitude >= 0 && count >= 0 && width >= 0 ==> v >= 0),
{
    match count.checked_mul(width) {
        Some(nanos) => match magnitude.checked_add(nanos) {
            Some(v) => Ok(v),
            None => Err(DurationParseError::Malformed),
        },
        None => Err(DurationParseError::Malformed),
    }
}

proof fn lemma_trim_trailing_zeros(s: Seq<u8>)
    ensures
        trim_trailing_zeros(s).len() <= s.len(),
        trim_trailing_zeros(s) =~= s.take(trim_trailing_zeros(s).len() as int),
        trim_trailing_zeros(s).len() == 0 || trim_trailing_zeros(s).last() != 48,
        forall|j: int| trim_trailing_zeros(s).len() <= j < s.len() ==> s[j] == 48,
    decreases s.len(),
{
    if s.len() > 0 && s.last() == 48 {
        lemma_trim_trailing_zeros(s.drop_last());
        let t = trim_trailing_zeros(s);
        assert forall|j: int| t.len() <= j < s.len() implies s[j] == 48 by {
            if j < s.len() - 1 {
                assert(s.drop_last()[j] == s[j]);
            }
        }
        assert(s.drop_last().take(t.len() as int) =~= s.take(t.len() as int));
    }
}

proof fn lemma_trim_trailing_zeros_of(s: Seq<u8>, k: int)
    requires
        0 <= k <= s.len(),
        k == 0 || s[k - 1] != 48,
        forall|j: int| k <= j < s.len() ==> s[j] == 48,
    ensures
        trim_trailing_zeros(s) =~= s.take(k),
    decreases s.len(),
{
    if s.len() > k {
        assert(s.last() == 48);
        lemma_trim_trailing_zeros_of(s.drop_last(), k);
        assert(s.drop_last().take(k) =~= s.take(k));
    } else {
        assert(s.take(k) =~= s);
    }
}

proof fn lemma_pow10_positive(n: nat)
    ensures
        pow10(n) >= 1,
    decreases n,
{
    if n > 0 {
        lemma_pow10_positive((n - 1) as nat);
    }
}

proof fn lemma_digits_value_bound(s: Seq<u8>)
    requires
        all_digits(s),
    ensures
        0 <= digits_value(s) < pow10(s.len()),
    decreases s.len(),
{
    if s.len() > 0 {
        lemma_digits_value_bound(s.drop_last());
    }
}

/// Parses a fractional-second field to nanoseconds. Cosmetic trailing zeros are
/// trimmed before the nanosecond cap applies: only the significant fraction must
/// fit nine digits.
fn parse_fraction_nanos(digits: &[u8]) -> (r: Option<i128>)
    ensures
        r matches Some(v) ==> fraction_nanos(digits@) == Some(v as int),
        r is None ==> fraction_nanos(digits@) is None,
        r matches Some(v) ==> 0 <= v < 1_000_000_000,
{
    if digits.len() == 0 || !is_all_digits(digits) {
        return None;
    }
    let mut end: usize = digits.len();
    while end > 0 && digits[end - 1] == 48
        invariant
            end <= digits@.len(),
            forall|j: int| end <= j < digits@.len() ==> digits@[j] == 48,
        decreases end,
    {
        end = end - 1;
    }
    proof {
        lemma_trim_trailing_zeros_of(digits@, end as int);
    }
    if end > 9 {
        return None;
    }
    let ghost sig = digits@.take(end as int);
    let mut value: i128 = 0;
    let mut i: usize = 0;
    while i < end
        invariant
            end <= 9,
            end <= digits@.len(),
            all_digits(digits@),
            sig == digits@.take(end as int),
            i <= end,
            value == digits_value(sig.take(i as int)),
            0 <= value < pow10(i as nat),
        decreases end - i,
    {
        assert(sig.take(i as int + 1).drop_last() =~= sig.take(i as int));
        assert(pow10(i as nat + 1) == 10 * pow10(i as nat));
        assert(pow10(i as nat) <= 100_000_000) by {
            lemma_pow10_le(i as nat, 8);
            lemma_pow10_eight();
        }
        value = value * 10 + (digits[i] - 48) as i128;
        i = i + 1;
    }
    assert(sig.take(end as int) =~= sig);
    assert(pow10(0) == 1);
    assert(value * pow10(0) == value);
    let mut scaled: i128 = value;
    let mut k: usize = end;
    while k < 9
        invariant
            end <= k <= 9,
            scaled == value * pow10((k - end) as nat),
            0 <= value < pow10(end as nat),
            0 <= scaled < pow10(k as nat),
        decreases 9 - k,
    {
        proof {
            lemma_pow10_split(end as nat, (k - end) as nat);
            lemma_pow10_le(k as nat, 8);
            lemma_pow10_eight();
            lemma_pow10_positive((k - end) as nat);
            assert(value * pow10((k - end) as nat) < pow10(end as nat) * pow10((k - end) as nat))
                by (nonlinear_arith)
                requires
                    0 <= value < pow10(end as nat),
                    pow10((k - end) as nat) >= 1,
            ;
            assert(pow10((k - end + 1) as nat) == 10 * pow10((k - end) as nat));
            assert(pow10((k + 1) as nat) == 10 * pow10(k as nat));
            assert(value * pow10((k - end) as nat) >= 0) by (nonlinear_arith)
                requires
                    value >= 0,
                    pow10((k - end) as nat) >= 1,
            ;
            assert(value * pow10((k - end + 1) as nat) == 10 * (value * pow10((k - end) as nat)))
                by (nonlinear_arith)
                requires
                    pow10((k - end + 1) as nat) == 10 * pow10((k - end) as nat),
            ;
        }
        scaled = scaled * 10;
        k = k + 1;
    }
    proof {
        lemma_pow10_eight();
    }
    Some(scaled)
}

proof fn lemma_pow10_split(a: nat, b: nat)
    ensures
        pow10(a + b) == pow10(a) * pow10(b),
    decreases a,
{
    if a > 0 {
        lemma_pow10_split((a - 1) as nat, b);
        assert(pow10(a + b) == 10 * pow10((a - 1 + b) as nat));
        assert(10 * (pow10((a - 1) as nat) * pow10(b)) == (10 * pow10((a - 1) as nat)) * pow10(b))
            by (nonlinear_arith);
    }
}

proof fn lemma_pow10_eight()
    ensures
        pow10(8) == 100_000_000,
        pow10(9) == 1_000_000_000,
{
    reveal_with_fuel(pow10, 10);
}

proof fn lemma_pow10_le(n: nat, m: nat)
    requires
        n <= m,
    ensures
        pow10(n) <= pow10(m),
    decreases m,
{
    lemma_pow10_positive(n);
    if n < m {
        lemma_pow10_le(n, (m - 1) as nat);
        lemma_pow10_positive((m - 1) as nat);
    }
}

/// Reads the whole date-position field, requiring it to be exactly
/// `<digits>D`. A year or month unit is calendar-ambiguous; anything else is
/// malformed.
fn take_duration_component(field: &[u8], unit: u8) -> (r: Result<i128, DurationParseError>)
    ensures
        r matches Ok(v) ==> duration_component(field@, unit) == Ok::<int, DurationParseError>(
            v as int,
        ),
        r matches Err(e) ==> duration_component(field@, unit) == Err::<int, DurationParseError>(
            e,
        ),
{
    if contains_byte(field, 89) || contains_byte(field, 77) {
        return Err(DurationParseError::CalendarAmbiguous);
    }
    if field.len() > 0 && field[field.len() - 1] == unit {
        parse_unsigned_count(&field[0..field.len() - 1])
    } else {
        Err(DurationParseError::Malformed)
    }
}

/// Pulls an optional leading `<digits><unit>` off the front of a time-position
/// field, returning the parsed count (if present) and the remaining text. A `Y`
/// anywhere in the time part is calendar-ambiguous.
fn split_optional_component(field: &[u8], unit: u8) -> (r: Result<
    (Option<i128>, &[u8]),
    DurationParseError,
>)
    ensures
        r matches Ok((c, rest)) ==> optional_component(field@, unit) == Ok::<
            (Option<int>, Seq<u8>),
            DurationParseError,
        >(
            (
                match c {
                    Some(v) => Some(v as int),
                    None => None,
                },
                rest@,
            ),
        ),
        r matches Err(e) ==> optional_component(field@, unit) == Err::<
            (Option<int>, Seq<u8>),
            DurationParseError,
        >(e),
        r matches Ok((c, rest)) ==> (c matches Some(v) ==> v >= 0),
{
    if contains_byte(field, 89) {
        return Err(DurationParseError::CalendarAmbiguous);
    }
    match find_byte(field, unit) {
        Some(k) => {
            let len = field.len();
            assert(k < len);
            let after = &field[k + 1..len];
            match parse_unsigned_count(&field[0..k]) {
                Ok(v) => Ok((Some(v), after)),
                Err(e) => Err(e),
            }
        },
        None => Ok((None, field)),
    }
}

/// Parses the trailing seconds component `<digits>[.<fraction>]S` to
/// nanoseconds.
fn parse_seconds_component(field: &[u8]) -> (r: Result<i128, DurationParseError>)
    ensures
        r matches Ok(v) ==> seconds_component(field@) == Ok::<int, DurationParseError>(v as int),
        r matches Err(e) ==> seconds_component(field@) == Err::<int, DurationParseError>(e),
        r matches Ok(v) ==> v >= 0,
{
    if field.len() == 0 || field[field.len() - 1] != 83 {
        return Err(DurationParseError::Malformed);
    }
    let body = &field[0..field.len() - 1];
    assert(body@ == field@.drop_last());
    let (seconds_text, fraction_text): (&[u8], Option<&[u8]>) = match find_byte(body, 46) {
        Some(k) => (&body[0..k], Some(&body[k + 1..body.len()])),
        None => (body, None),
    };
    let seconds = parse_unsigned_count(seconds_text)?;
    let fraction_nanos: i128 = match fraction_text {
        None => 0,
        Some(digits) => match parse_fraction_nanos(digits) {
            Some(v) => v,
            None => {
                return Err(DurationParseError::Malformed);
            },
        },
    };
    match seconds.checked_mul(NANOS_PER_SEC) {
        Some(whole) => match whole.checked_add(fraction_nanos) {
            Some(v) => Ok(v),
            None => Err(DurationParseError::Malformed),
        },
        None => Err(DurationParseError::Malformed),
    }
}

fn parse_time_part(magnitude: i128, time: &[u8]) -> (r: Result<(i128, bool), DurationParseError>)
    ensures
        r matches Ok((m, any)) ==> time_part_spec(magnitude as int, time@) == Ok::<
            (int, bool),
            DurationParseError,
        >((m as int, any)),
        r matches Err(e) ==> time_part_spec(magnitude as int, time@) == Err::<
            (int, bool),
            DurationParseError,
        >(e),
        r matches Ok((m, any)) ==> (magnitude >= 0 ==> m >= 0),
{
    if time.len() == 0 {
        return Err(DurationParseError::Malformed);
    }
    let (hours, rest) = split_optional_component(time, 72)?;
    let (minutes, rest) = split_optional_component(rest, 77)?;
    let mut magnitude = magnitude;
    let mut any_component = false;
    if let Some(hours) = hours {
        magnitude = add_component(magnitude, hours, NANOS_PER_HOUR)?;
        any_component = true;
    }
    if let Some(minutes) = minutes {
        magnitude = add_component(magnitude, minutes, NANOS_PER_MINUTE)?;
        any_component = true;
    }
    if rest.len() > 0 {
        let seconds_nanos = parse_seconds_component(rest)?;
        magnitude = match magnitude.checked_add(seconds_nanos) {
            Some(v) => v,
            None => {
                return Err(DurationParseError::Malformed);
            },
        };
        any_component = true;
    }
    Ok((magnitude, any_component))
}

/// Parses the time-based ISO-8601 duration subset `[-]PnDTnHnMnS` to a signed
/// nanosecond span. Every component is an exact fixed width — `1D` is 86400s,
/// `1H` 3600s, `1M` 60s — summed under an `i128` overflow envelope; only the
/// seconds component may carry a fraction. Nominal year/month components have
/// no exact nanosecond width and are refused.
pub fn parse_iso8601_duration_nanos(text: &str) -> (r: Result<i128, DurationParseError>)
    ensures
        r matches Ok(v) ==> duration_nanos(encode_utf8(text@)) == Ok::<int, DurationParseError>(
            v as int,
        ),
        r matches Err(e) ==> duration_nanos(encode_utf8(text@)) == Err::<int, DurationParseError>(
            e,
        ),
{
    let bytes = text.as_bytes();
    let ghost t = bytes@;
    assert(t == encode_utf8(text@));
    let negative = bytes.len() > 0 && bytes[0] == 45;
    let body: &[u8] = if negative {
        &bytes[1..bytes.len()]
    } else {
        bytes
    };
    if body.len() == 0 || body[0] != 80 {
        return Err(DurationParseError::Malformed);
    }
    let body = &body[1..body.len()];
    let (date_part, time_part): (&[u8], Option<&[u8]>) = match find_byte(body, 84) {
        Some(k) => (&body[0..k], Some(&body[k + 1..body.len()])),
        None => (body, None),
    };
    let (magnitude, any_component) = match parse_date_part(date_part) {
        Ok(p) => p,
        Err(e) => {
            return Err(e);
        },
    };
    let (magnitude, any_component) = match time_part {
        None => (magnitude, any_component),
        Some(time) => match parse_time_part(magnitude, time) {
            Ok((m, any)) => (m, any_component || any),
            Err(e) => {
                return Err(e);
            },
        },
    };
    if !any_component {
        return Err(DurationParseError::Malformed);
    }
    if negative && magnitude == 0 {
        // Negative zero has no canonical spelling; zero is `PT0S`.
        return Err(DurationParseError::Malformed);
    }
    if negative {
        Ok(-magnitude)
    } else {
        Ok(magnitude)
    }
}

/// The date-position part before `T`: empty, or exactly `<digits>D`.
fn parse_date_part(date: &[u8]) -> (r: Result<(i128, bool), DurationParseError>)
    ensures
        r matches Ok((m, any)) ==> m >= 0 && (if date@.len() > 0 {
            match duration_component(date@, 68u8) {
                Ok(days) => add_component_spec(0, days, NANOS_PER_DAY as int) == Ok::<
                    int,
                    DurationParseError,
                >(m as int) && any,
                Err(_) => false,
            }
        } else {
            m == 0 && !any
        }),
        r matches Err(e) ==> date@.len() > 0 && (match duration_component(date@, 68u8) {
            Ok(days) => add_component_spec(0, days, NANOS_PER_DAY as int) == Err::<
                int,
                DurationParseError,
            >(e),
            Err(e2) => e2 == e,
        }),
{
    if date.len() > 0 {
        match take_duration_component(date, 68) {
            Ok(days) => {
                assert(days >= 0) by {
                    lemma_duration_component_nonneg(date@, 68u8);
                }
                match add_component(0, days, NANOS_PER_DAY) {
                    Ok(m) => Ok((m, true)),
                    Err(e) => Err(e),
                }
            },
            Err(e) => Err(e),
        }
    } else {
        Ok((0, false))
    }
}

proof fn lemma_duration_component_nonneg(field: Seq<u8>, unit: u8)
    ensures
        duration_component(field, unit) matches Ok(v) ==> v >= 0,
{
    if field.len() > 0 && all_digits(field.drop_last()) {
        lemma_digits_value_nonneg(field.drop_last());
    }
}

/// An all-ASCII-digit field as a `u32`; empty or any non-digit byte is `None`.
pub open spec fn uint_field(s: Seq<u8>) -> Option<int> {
    if s.len() > 0 && all_digits(s) && digits_value(s) <= u32::MAX {
        Some(digits_value(s))
    } else {
        None
    }
}

/// An RFC-3339 zone designator as its offset from UTC in nanoseconds: `Z` is
/// zero, `±HH:MM` the signed offset.
pub open spec fn zone_offset_nanos(zone: Seq<u8>) -> Option<int> {
    if zone =~= seq![90u8] {
        Some(0)
    } else if zone.len() != 6 || zone[3] != 58u8 || (zone[0] != 43u8 && zone[0] != 45u8) {
        None
    } else {
        let sign: int = if zone[0] == 43u8 {
            1
        } else {
            -1
        };
        match (uint_field(zone.subrange(1, 3)), uint_field(zone.subrange(4, 6))) {
            (Some(h), Some(m)) => if h > 23 || m > 59 {
                None
            } else {
                Some(sign * (h * 3600 + m * 60) * 1_000_000_000)
            },
            _ => None,
        }
    }
}

/// A zone offset `-HH:MM` is the exact negation of `+HH:MM`: the sign
/// applies to the whole offset, hours and minutes together, `+HH:MM` is
/// `HH` hours and `MM` minutes east of UTC, and `Z` is UTC itself.
pub proof fn lemma_zone_offset_sign(hhmm: Seq<u8>)
    requires
        hhmm.len() == 5,
    ensures
        zone_offset_nanos(seq![45u8] + hhmm) == (match zone_offset_nanos(seq![43u8] + hhmm) {
            Some(o) => Some(-o),
            None => None,
        }),
        zone_offset_nanos(seq![90u8]) == Some(0int),
        zone_offset_nanos(seq![43u8] + hhmm) matches Some(o) ==> o == (digits_value(hhmm.take(2))
            * 3600 + digits_value(hhmm.skip(3)) * 60) * 1_000_000_000,
{
    let minus = seq![45u8] + hhmm;
    let plus = seq![43u8] + hhmm;
    assert(minus.subrange(1, 3) =~= hhmm.take(2));
    assert(plus.subrange(1, 3) =~= hhmm.take(2));
    assert(minus.subrange(4, 6) =~= hhmm.skip(3));
    assert(plus.subrange(4, 6) =~= hhmm.skip(3));
    assert(minus[3] == hhmm[2] && plus[3] == hhmm[2]);
    assert(minus[0] == 45u8 && plus[0] == 43u8);
    assert(!(minus =~= seq![90u8]) && !(plus =~= seq![90u8])) by {
        assert(minus.len() == 6 && plus.len() == 6);
    }
    match (uint_field(hhmm.take(2)), uint_field(hhmm.skip(3))) {
        (Some(h), Some(m)) => {
            assert(-1 * (h * 3600 + m * 60) * 1_000_000_000 == -((h * 3600 + m * 60)
                * 1_000_000_000)) by (nonlinear_arith);
        },
        _ => {},
    }
}

/// The index of the first byte of `s` that is not an ASCII digit.
pub open spec fn first_non_digit(s: Seq<u8>) -> Option<int>
    decreases s.len(),
{
    if s.len() == 0 {
        None
    } else if !is_digit(s[0]) {
        Some(0)
    } else {
        match first_non_digit(s.drop_first()) {
            Some(k) => Some(k + 1),
            None => None,
        }
    }
}

/// The `HH:MM:SS[.fraction]<zone>` portion after the `T` of an RFC-3339
/// instant: the seconds within the day, the sub-second nanoseconds, and the
/// zone's offset from UTC in nanoseconds.
pub open spec fn time_and_zone(time: Seq<u8>) -> Option<(int, int, int)> {
    if time.len() < 8 || time[2] != 58u8 || time[5] != 58u8 {
        None
    } else {
        match (
            uint_field(time.subrange(0, 2)),
            uint_field(time.subrange(3, 5)),
            uint_field(time.subrange(6, 8)),
        ) {
            (Some(h), Some(m), Some(sec)) => if h > 23 || m > 59 || sec > 59 {
                None
            } else {
                let rest = time.skip(8);
                let split = if rest.len() > 0 && rest[0] == 46u8 {
                    let after = rest.skip(1);
                    match first_non_digit(after) {
                        Some(z) => match fraction_nanos(after.take(z)) {
                            Some(f) => Some((f, after.skip(z))),
                            None => None,
                        },
                        None => None,
                    }
                } else {
                    Some((0int, rest))
                };
                match split {
                    Some((f, zone)) => match zone_offset_nanos(zone) {
                        Some(o) => Some((h * 3600 + m * 60 + sec, f, o)),
                        None => None,
                    },
                    None => None,
                }
            },
            _ => None,
        }
    }
}

/// Parses an all-ASCII-digit field as a `u32`; any non-digit byte rejects it,
/// so unpadded or signed fields never parse.
fn parse_uint(field: &[u8]) -> (r: Option<u32>)
    ensures
        r matches Some(v) ==> uint_field(field@) == Some(v as int),
        r is None ==> uint_field(field@) is None,
{
    if field.len() == 0 || !is_all_digits(field) {
        return None;
    }
    proof {
        lemma_digits_value_nonneg(field@);
    }
    match digits_to_i128(field) {
        Some(v) => if v <= 4294967295 {
            Some(v as u32)
        } else {
            None
        },
        None => None,
    }
}

/// Parses an RFC-3339 zone designator to its offset from UTC in nanoseconds:
/// `Z` is zero, `±HH:MM` is the signed offset.
fn parse_zone_offset_nanos(zone: &[u8]) -> (r: Option<i128>)
    ensures
        r matches Some(v) ==> zone_offset_nanos(zone@) == Some(v as int),
        r is None ==> zone_offset_nanos(zone@) is None,
        r matches Some(v) ==> -86_400_000_000_000 < v < 86_400_000_000_000,
{
    if zone.len() == 1 && zone[0] == 90 {
        assert(zone@ =~= seq![90u8]);
        return Some(0);
    }
    assert(!(zone@ =~= seq![90u8])) by {
        if zone@ =~= seq![90u8] {
            assert(zone@.len() == 1 && zone@[0] == 90u8);
        }
    }
    if zone.len() != 6 || zone[3] != 58 {
        return None;
    }
    let sign: i128 = if zone[0] == 43 {
        1
    } else if zone[0] == 45 {
        -1
    } else {
        return None;
    };
    let hours = match parse_uint(&zone[1..3]) {
        Some(v) => v,
        None => {
            return None;
        },
    };
    let minutes = match parse_uint(&zone[4..6]) {
        Some(v) => v,
        None => {
            return None;
        },
    };
    if hours > 23 || minutes > 59 {
        return None;
    }
    let total: i128 = (hours as i128 * 3600 + minutes as i128 * 60) * NANOS_PER_SEC;
    if sign == 1 {
        Some(total)
    } else {
        Some(-total)
    }
}

/// Parses the `HH:MM:SS[.fraction]<zone>` portion after the `T`, returning the
/// seconds within the day, the sub-second nanoseconds, and the zone's offset
/// from UTC in nanoseconds (zero for `Z`).
pub fn parse_time_and_zone(time: &[u8]) -> (r: Option<(u32, i128, i128)>)
    ensures
        r matches Some((sod, f, o)) ==> time_and_zone(time@) == Some(
            (sod as int, f as int, o as int),
        ),
        r is None ==> time_and_zone(time@) is None,
        r matches Some((sod, f, o)) ==> sod < 86400 && 0 <= f < 1_000_000_000
            && -86_400_000_000_000 < o < 86_400_000_000_000,
{
    if time.len() < 8 || time[2] != 58 || time[5] != 58 {
        return None;
    }
    let hours = match parse_uint(&time[0..2]) {
        Some(v) => v,
        None => {
            return None;
        },
    };
    let minutes = match parse_uint(&time[3..5]) {
        Some(v) => v,
        None => {
            return None;
        },
    };
    let seconds = match parse_uint(&time[6..8]) {
        Some(v) => v,
        None => {
            return None;
        },
    };
    if hours > 23 || minutes > 59 || seconds > 59 {
        return None;
    }
    let seconds_of_day: u32 = hours * 3600 + minutes * 60 + seconds;
    let rest = &time[8..time.len()];
    let (fraction_nanos, zone): (i128, &[u8]) = if rest.len() > 0 && rest[0] == 46 {
        let after_dot = &rest[1..rest.len()];
        let zone_start = match find_non_digit(after_dot) {
            Some(k) => k,
            None => {
                return None;
            },
        };
        match parse_fraction_nanos(&after_dot[0..zone_start]) {
            Some(f) => (f, &after_dot[zone_start..after_dot.len()]),
            None => {
                return None;
            },
        }
    } else {
        (0, rest)
    };
    match parse_zone_offset_nanos(zone) {
        Some(offset) => Some((seconds_of_day, fraction_nanos, offset)),
        None => None,
    }
}

/// The exec form of [`first_non_digit`].
fn find_non_digit(s: &[u8]) -> (r: Option<usize>)
    ensures
        r matches Some(k) ==> first_non_digit(s@) == Some(k as int) && k < s@.len(),
        r is None ==> first_non_digit(s@) is None,
{
    let mut i: usize = 0;
    while i < s.len()
        invariant
            i <= s@.len(),
            forall|j: int| 0 <= j < i ==> is_digit(#[trigger] s@[j]),
        decreases s@.len() - i,
    {
        if !(s[i] >= 48 && s[i] <= 57) {
            proof {
                lemma_first_non_digit_found(s@, i as int);
            }
            return Some(i);
        }
        i = i + 1;
    }
    proof {
        lemma_first_non_digit_absent(s@);
    }
    None
}

proof fn lemma_first_non_digit_found(s: Seq<u8>, i: int)
    requires
        0 <= i < s.len(),
        !is_digit(s[i]),
        forall|j: int| 0 <= j < i ==> is_digit(#[trigger] s[j]),
    ensures
        first_non_digit(s) == Some(i),
    decreases s.len(),
{
    if i > 0 {
        assert forall|j: int| 0 <= j < i - 1 implies is_digit(#[trigger] s.drop_first()[j]) by {
            assert(s.drop_first()[j] == s[j + 1]);
        }
        lemma_first_non_digit_found(s.drop_first(), i - 1);
    }
}

proof fn lemma_first_non_digit_absent(s: Seq<u8>)
    requires
        forall|j: int| 0 <= j < s.len() ==> is_digit(#[trigger] s[j]),
    ensures
        first_non_digit(s) is None,
    decreases s.len(),
{
    if s.len() > 0 {
        assert forall|j: int| 0 <= j < s.len() - 1 implies is_digit(#[trigger] s.drop_first()[j]) by {
            assert(s.drop_first()[j] == s[j + 1]);
        }
        lemma_first_non_digit_absent(s.drop_first());
    }
}


// ---------------------------------------------------------------------------
// Calendar dates and RFC-3339 instants.
/// Whether `y` is a leap year of the proleptic Gregorian calendar.
pub open spec fn is_leap_year(y: int) -> bool {
    (y % 4 == 0 && y % 100 != 0) || y % 400 == 0
}

/// The number of days in month `m` of year `y`.
pub open spec fn month_length(y: int, m: int) -> int {
    if m == 2 {
        if is_leap_year(y) {
            29
        } else {
            28
        }
    } else if m == 4 || m == 6 || m == 9 || m == 11 {
        30
    } else {
        31
    }
}

/// The days of year `y` before month `m`.
pub open spec fn days_before_month(y: int, m: int) -> int
    decreases m,
{
    if m <= 1 {
        0
    } else {
        days_before_month(y, m - 1) + month_length(y, m - 1)
    }
}

/// The leap years before year `y`, counted from year 1.
pub open spec fn leap_days_before(y: int) -> int {
    (y - 1) / 4 - (y - 1) / 100 + (y - 1) / 400
}

/// The day number of a calendar date, in days since 1970-01-01.
pub open spec fn civil_days(y: int, m: int, d: int) -> int {
    365 * (y - 1970) + leap_days_before(y) - leap_days_before(1970) + days_before_month(y, m) + d
        - 1
}

/// The day number of a valid calendar date that fits the `i32` days.
pub open spec fn date_days_spec(y: int, m: int, d: int) -> Option<int> {
    if 1 <= m <= 12 && 1 <= d <= month_length(y, m) && i32::MIN <= civil_days(y, m, d)
        <= i32::MAX {
        Some(civil_days(y, m, d))
    } else {
        None
    }
}

fn month_len(y: i64, m: u32) -> (r: i64)
    ensures
        r == month_length(y as int, m as int),
{
    if m == 2 {
        let leap = (y % 4 == 0 && y % 100 != 0) || y % 400 == 0;
        proof {
            crate::math::lemma_truncated_division(y as int, 4);
            crate::math::lemma_truncated_division(y as int, 100);
            crate::math::lemma_truncated_division(y as int, 400);
            lemma_zero_rem(y as int, 4);
            lemma_zero_rem(y as int, 100);
            lemma_zero_rem(y as int, 400);
        }
        if leap {
            29
        } else {
            28
        }
    } else if m == 4 || m == 6 || m == 9 || m == 11 {
        30
    } else {
        31
    }
}

/// A truncated remainder is zero exactly when the Euclidean one is.
proof fn lemma_zero_rem(y: int, d: int)
    requires
        d > 0,
    ensures
        (crate::math::trunc_rem(y, d) == 0) == (y % d == 0),
{
    crate::math::lemma_truncated_division(y, d);
    vstd::arithmetic::div_mod::lemma_fundamental_div_mod(y, d);
    vstd::arithmetic::div_mod::lemma_mod_bound(y, d);
    let t = crate::math::trunc_div(y, d);
    let r = crate::math::trunc_rem(y, d);
    if r == 0 {
        vstd::arithmetic::div_mod::lemma_fundamental_div_mod_converse_mod(y, d, t, 0);
    }
    if y % d == 0 {
        if r != 0 {
            if r < 0 {
                assert(y == (t - 1) * d + (r + d)) by (nonlinear_arith)
                    requires
                        y == t * d + r,
                ;
                vstd::arithmetic::div_mod::lemma_fundamental_div_mod_converse_mod(y, d, t - 1, r + d);
            } else {
                vstd::arithmetic::div_mod::lemma_fundamental_div_mod_converse_mod(y, d, t, r);
            }
        }
    }
}

/// `a` divided by a positive `d`, floored.
fn floor_div_i64(a: i64, d: i64) -> (r: i64)
    requires
        d > 0,
    ensures
        r as int == a as int / d as int,
{
    let q = a / d;
    let m = a % d;
    proof {
        crate::math::lemma_truncated_division(a as int, d as int);
        assert(q == crate::math::trunc_div(a as int, d as int));
        assert(m == crate::math::trunc_rem(a as int, d as int));
    }
    if m < 0 {
        proof {
            assert(a == (q - 1) * d + (m + d)) by (nonlinear_arith)
                requires
                    a == q * d + m,
            ;
            vstd::arithmetic::div_mod::lemma_fundamental_div_mod_converse_div(a as int, d as int, q - 1, m + d);
            assert(q > i64::MIN) by (nonlinear_arith)
                requires
                    a == q * d + m,
                    m < 0,
                    -d < m,
                    a >= i64::MIN,
            ;
        }
        q - 1
    } else {
        proof {
            vstd::arithmetic::div_mod::lemma_fundamental_div_mod_converse_div(a as int, d as int, q as int, m as int);
        }
        q
    }
}

/// The day number of the calendar date `year-month-day`, or `None` for a
/// month or day that does not exist or a day number past the `i32` days.
pub fn date_days(year: i32, month: u32, day: u32) -> (r: Option<i32>)
    ensures
        match date_days_spec(year as int, month as int, day as int) {
            Some(d) => r == Some(d as i32),
            None => r is None,
        },
{
    if month < 1 || month > 12 {
        return None;
    }
    let y = year as i64;
    let dim = month_len(y, month);
    if day < 1 || day as i64 > dim {
        return None;
    }
    let mut before: i64 = 0;
    let mut k: u32 = 1;
    while k < month
        invariant
            1 <= k <= month <= 12,
            y == year as i64,
            before == days_before_month(y as int, k as int),
            0 <= before <= 31 * (k - 1),
        decreases month - k,
    {
        let len = month_len(y, k);
        before = before + len;
        k = k + 1;
    }
    let leaps = floor_div_i64(y - 1, 4) - floor_div_i64(y - 1, 100) + floor_div_i64(y - 1, 400);
    assert(leap_days_before(1970) == 477);
    let days = 365 * (y - 1970) + leaps - 477 + before + day as i64 - 1;
    if days < i32::MIN as i64 || days > i32::MAX as i64 {
        return None;
    }
    Some(days as i32)
}

/// A `YYYY-MM-DD` field as its day number.
pub open spec fn date_field_days(field: Seq<u8>) -> Option<int> {
    if field.len() != 10 || field[4] != 45u8 || field[7] != 45u8 {
        None
    } else {
        match (
            uint_field(field.subrange(0, 4)),
            uint_field(field.subrange(5, 7)),
            uint_field(field.subrange(8, 10)),
        ) {
            (Some(y), Some(m), Some(d)) => date_days_spec(y, m, d),
            _ => None,
        }
    }
}

/// Parses a fixed-width `YYYY-MM-DD` field to its day number, refusing
/// unpadded fields, stray separators and dates that do not exist.
pub fn parse_date(field: &[u8]) -> (r: Option<i32>)
    ensures
        match date_field_days(field@) {
            Some(d) => r == Some(d as i32),
            None => r is None,
        },
{
    if field.len() != 10 || field[4] != 45 || field[7] != 45 {
        return None;
    }
    let year = match parse_uint(&field[0..4]) {
        Some(v) => v,
        None => return None,
    };
    let month = match parse_uint(&field[5..7]) {
        Some(v) => v,
        None => return None,
    };
    let day = match parse_uint(&field[8..10]) {
        Some(v) => v,
        None => return None,
    };
    proof {
        lemma_four_digits_bound(field@.subrange(0, 4));
    }
    date_days(year as i32, month, day)
}

proof fn lemma_four_digits_bound(s: Seq<u8>)
    requires
        s.len() == 4,
    ensures
        uint_field(s) matches Some(v) ==> v <= 9999,
{
    if uint_field(s) is Some {
        reveal_with_fuel(digits_value, 5);
        assert(s.drop_last().drop_last().drop_last().drop_last().len() == 0);
    }
}

/// Whether an instant lies on one of the supported dates.
pub open spec fn supported_instant(nanos: int) -> bool {
    crate::clock::MIN_SUPPORTED_DATE * NANOS_PER_DAY <= nanos < (crate::clock::MAX_SUPPORTED_DATE
        + 1) * NANOS_PER_DAY
}

/// The UTC instant that RFC-3339 text spells: a `YYYY-MM-DD` date, `T`, and
/// the time and zone; the zone's offset is subtracted to reach UTC.
pub open spec fn rfc3339_instant(text: Seq<u8>) -> Option<int> {
    if text.len() < 11 || text[10] != 84u8 {
        None
    } else {
        match date_field_days(text.subrange(0, 10)) {
            None => None,
            Some(days) => match time_and_zone(text.skip(11)) {
                None => None,
                Some((sod, f, o)) => {
                    let nanos = days * NANOS_PER_DAY + sod * NANOS_PER_SEC + f - o;
                    if supported_instant(nanos) {
                        Some(nanos)
                    } else {
                        None
                    }
                },
            },
        }
    }
}

/// The zone of an RFC-3339 instant shifts it by exactly its offset: for a
/// local `YYYY-MM-DDTHH:MM:SS`, the instant spelled with a zone of offset
/// `o` is the instant spelled with `Z` less `o` (where that lies on a
/// supported date), and a text that spells an instant with that zone spells
/// the `Z` instant less `o` whenever the `Z` text spells one.
pub proof fn lemma_instant_zone_shift(local: Seq<u8>, zone: Seq<u8>)
    requires
        local.len() == 19,
    ensures
        match (rfc3339_instant(local + seq![90u8]), zone_offset_nanos(zone)) {
            (Some(n), Some(o)) => (supported_instant(n - o) ==> rfc3339_instant(local + zone) == Some(
                n - o,
            )) && (rfc3339_instant(local + zone) matches Some(m) ==> m == n - o),
            _ => true,
        },
{
    let zulu = seq![90u8];
    let a = local + zulu;
    let b = local + zone;
    assert(a.subrange(0, 10) =~= local.subrange(0, 10));
    assert(b.subrange(0, 10) =~= local.subrange(0, 10));
    assert(a[10] == local[10] && b[10] == local[10]);
    let ta = a.skip(11);
    let tb = b.skip(11);
    assert(ta.subrange(0, 2) =~= tb.subrange(0, 2));
    assert(ta.subrange(3, 5) =~= tb.subrange(3, 5));
    assert(ta.subrange(6, 8) =~= tb.subrange(6, 8));
    assert(ta[2] == tb[2] && ta[5] == tb[5]);
    assert(ta.skip(8) =~= zulu);
    assert(tb.skip(8) =~= zone);
    if zone_offset_nanos(zone) is Some {
        if !(zone =~= seq![90u8]) {
            assert(zone.len() == 6);
            assert(zone[0] != 46u8);
        } else {
            assert(zone[0] == 90u8);
        }
        assert(tb.len() >= 8);
    }
}

/// Parses RFC-3339 instant text to UTC nanoseconds since the epoch, or
/// `None` for malformed text or an instant outside the supported dates.
pub fn parse_rfc3339_instant_nanos(text: &str) -> (r: Option<i128>)
    ensures
        match rfc3339_instant(encode_utf8(text@)) {
            Some(n) => r == Some(n as i128),
            None => r is None,
        },
{
    let bytes = text.as_bytes();
    if bytes.len() < 11 || bytes[10] != 84 {
        return None;
    }
    let days = match parse_date(&bytes[0..10]) {
        Some(d) => d,
        None => return None,
    };
    let (seconds_of_day, fraction_nanos, offset_nanos) = match parse_time_and_zone(&bytes[11..bytes.len()]) {
        Some(t) => t,
        None => return None,
    };
    let nanos = days as i128 * NANOS_PER_DAY + seconds_of_day as i128 * NANOS_PER_SEC + fraction_nanos
        - offset_nanos;
    let low = crate::clock::MIN_SUPPORTED_DATE as i128 * NANOS_PER_DAY;
    let high = (crate::clock::MAX_SUPPORTED_DATE as i128 + 1) * NANOS_PER_DAY;
    if low <= nanos && nanos < high {
        Some(nanos)
    } else {
        None
    }
}

} // verus!
