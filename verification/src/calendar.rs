//! The calendar a day number falls on — the inverse of
//! [`date_days`](crate::temporal::date_days) over the supported dates — and
//! the canonical `YYYY-MM-DD` spelling of a date.

use vstd::prelude::*;

use vstd::utf8::*;

use crate::clock::{supported_date, MAX_SUPPORTED_DATE, MIN_SUPPORTED_DATE};
use crate::percent::bytes_as_chars;
use crate::strbuf::push_char;
use crate::temporal::{
    all_digits, civil_days, date_days_spec, date_field_days, days_before_month, digits_value,
    is_leap_year, leap_days_before, month_length, uint_field,
};

verus! {

/// `y / k - (y - 1) / k` is one exactly when `k` divides `y`.
proof fn lemma_floor_step(y: int, k: int)
    requires
        k > 0,
    ensures
        y / k - (y - 1) / k == (if y % k == 0 {
            1int
        } else {
            0int
        }),
{
    vstd::arithmetic::div_mod::lemma_fundamental_div_mod(y, k);
    vstd::arithmetic::div_mod::lemma_fundamental_div_mod(y - 1, k);
    vstd::arithmetic::div_mod::lemma_mod_bound(y, k);
    vstd::arithmetic::div_mod::lemma_mod_bound(y - 1, k);
    let q = y / k;
    let r = y % k;
    if r == 0 {
        assert(y - 1 == (q - 1) * k + (k - 1)) by (nonlinear_arith)
            requires
                y == k * q + r,
                r == 0,
        ;
        vstd::arithmetic::div_mod::lemma_fundamental_div_mod_converse_div(y - 1, k, q - 1, k - 1);
    } else {
        assert(y - 1 == q * k + (r - 1)) by (nonlinear_arith)
            requires
                y == k * q + r,
        ;
        vstd::arithmetic::div_mod::lemma_fundamental_div_mod_converse_div(y - 1, k, q, r - 1);
    }
}

/// A multiple of 100 is a multiple of 4, and a multiple of 400 one of 100.
proof fn lemma_divisibility_chain(y: int)
    ensures
        y % 100 == 0 ==> y % 4 == 0,
        y % 400 == 0 ==> y % 100 == 0,
{
    if y % 100 == 0 {
        vstd::arithmetic::div_mod::lemma_fundamental_div_mod(y, 100);
        vstd::arithmetic::div_mod::lemma_fundamental_div_mod_converse_mod(y, 4, 25 * (y / 100), 0);
    }
    if y % 400 == 0 {
        vstd::arithmetic::div_mod::lemma_fundamental_div_mod(y, 400);
        vstd::arithmetic::div_mod::lemma_fundamental_div_mod_converse_mod(y, 100, 4 * (y / 400), 0);
    }
}

/// Each year adds one leap day to the count before the next year exactly
/// when it is a leap year.
proof fn lemma_leap_step(y: int)
    ensures
        leap_days_before(y + 1) - leap_days_before(y) == (if is_leap_year(y) {
            1int
        } else {
            0int
        }),
{
    lemma_floor_step(y, 4);
    lemma_floor_step(y, 100);
    lemma_floor_step(y, 400);
    lemma_divisibility_chain(y);
}

/// The days before each month of a year, from January through the end of
/// December.
proof fn lemma_days_before_months(y: int)
    ensures
        days_before_month(y, 1) == 0,
        days_before_month(y, 13) == 365 + (if is_leap_year(y) {
            1int
        } else {
            0int
        }),
        forall|m: int|
            1 <= m <= 12 ==> #[trigger] days_before_month(y, m + 1) == days_before_month(y, m)
                + month_length(y, m),
        forall|m: int| 1 <= m <= 13 ==> 0 <= #[trigger] days_before_month(y, m),
{
    reveal_with_fuel(days_before_month, 14);
}

/// The first day of the year after `y` comes one year length after the first
/// day of `y`.
proof fn lemma_year_length(y: int)
    ensures
        civil_days(y + 1, 1, 1) == civil_days(y, 1, 1) + days_before_month(y, 13),
{
    lemma_leap_step(y);
    lemma_days_before_months(y);
    lemma_days_before_months(y + 1);
}

/// Every valid date of year `y` falls within that year.
proof fn lemma_date_in_year(y: int, m: int, d: int)
    requires
        1 <= m <= 12,
        1 <= d <= month_length(y, m),
    ensures
        civil_days(y, 1, 1) <= civil_days(y, m, d) < civil_days(y + 1, 1, 1),
{
    lemma_year_length(y);
    lemma_days_before_months(y);
    lemma_days_before_mono(y, m + 1, 13);
}

proof fn lemma_days_before_mono(y: int, a: int, b: int)
    requires
        1 <= a <= b <= 13,
    ensures
        days_before_month(y, a) <= days_before_month(y, b),
    decreases b - a,
{
    lemma_days_before_months(y);
    if a < b {
        lemma_days_before_mono(y, a, b - 1);
        assert(month_length(y, b - 1) > 0);
    }
}

/// Later years start later.
proof fn lemma_year_start_mono(a: int, b: int)
    requires
        a <= b,
    ensures
        civil_days(a, 1, 1) <= civil_days(b, 1, 1),
        a < b ==> civil_days(a, 1, 1) < civil_days(b, 1, 1),
    decreases b - a,
{
    if a < b {
        lemma_year_start_mono(a, b - 1);
        lemma_year_length(b - 1);
        lemma_days_before_months(b - 1);
    }
}

/// Whether `(y, m, d)` names a day of the supported years' calendar.
pub open spec fn valid_date(y: int, m: int, d: int) -> bool {
    1 <= y <= 9999 && 1 <= m <= 12 && 1 <= d <= month_length(y, m)
}

/// Distinct calendar dates have distinct day numbers: the day number of a
/// valid date determines its year, month and day.
pub proof fn lemma_day_number_unique(y1: int, m1: int, d1: int, y2: int, m2: int, d2: int)
    requires
        1 <= m1 <= 12,
        1 <= d1 <= month_length(y1, m1),
        1 <= m2 <= 12,
        1 <= d2 <= month_length(y2, m2),
        civil_days(y1, m1, d1) == civil_days(y2, m2, d2),
    ensures
        y1 == y2 && m1 == m2 && d1 == d2,
{
    lemma_date_in_year(y1, m1, d1);
    lemma_date_in_year(y2, m2, d2);
    if y1 < y2 {
        lemma_year_start_mono(y1 + 1, y2);
    } else if y2 < y1 {
        lemma_year_start_mono(y2 + 1, y1);
    }
    assert(y1 == y2);
    lemma_days_before_months(y1);
    if m1 < m2 {
        lemma_days_before_mono(y1, m1 + 1, m2);
    } else if m2 < m1 {
        lemma_days_before_mono(y1, m2 + 1, m1);
    }
}

/// The supported dates are exactly the valid dates of years 1 through 9999:
/// each such date has a supported day number, the first is 0001-01-01 and
/// the last 9999-12-31.
pub proof fn lemma_valid_dates_supported(y: int, m: int, d: int)
    requires
        valid_date(y, m, d),
    ensures
        supported_date(civil_days(y, m, d)),
        civil_days(1, 1, 1) == MIN_SUPPORTED_DATE,
        civil_days(10000, 1, 1) == MAX_SUPPORTED_DATE + 1,
{
    lemma_supported_bounds();
    lemma_date_in_year(y, m, d);
    lemma_year_start_mono(1, y);
    lemma_year_start_mono(y + 1, 10000);
}

proof fn lemma_supported_bounds()
    ensures
        civil_days(1, 1, 1) == MIN_SUPPORTED_DATE,
        civil_days(10000, 1, 1) == MAX_SUPPORTED_DATE + 1,
{
    assert(leap_days_before(1970) == 477);
    assert(leap_days_before(1) == 0);
    assert(leap_days_before(10000) == 2424);
    lemma_days_before_months(1);
    lemma_days_before_months(10000);
}

/// The valid date whose day number is `days`, if there is one.
pub open spec fn date_of(days: int) -> Option<(int, int, int)> {
    if exists|y: int, m: int, d: int| valid_date(y, m, d) && #[trigger] civil_days(y, m, d) == days {
        Some(
            choose|y: int, m: int, d: int| valid_date(y, m, d) && #[trigger] civil_days(y, m, d) == days,
        )
    } else {
        None
    }
}

/// Splitting the day number of a valid date gives that date back.
pub proof fn lemma_date_of_day_number(y: int, m: int, d: int)
    requires
        valid_date(y, m, d),
    ensures
        date_of(civil_days(y, m, d)) == Some((y, m, d)),
{
    let days = civil_days(y, m, d);
    assert(valid_date(y, m, d) && civil_days(y, m, d) == days);
    let (y2, m2, d2) = choose|y2: int, m2: int, d2: int|
        valid_date(y2, m2, d2) && #[trigger] civil_days(y2, m2, d2) == days;
    lemma_day_number_unique(y, m, d, y2, m2, d2);
}

/// A calendar date: year, month and day of month.
#[derive(Debug, Clone, Copy, PartialEq, Eq, Structural)]
pub struct DateParts {
    pub year: i32,
    pub month: u32,
    pub day: u32,
}

/// The first day of month `month` of `year`, as a day number.
fn month_start(year: i32, month: u32) -> (r: i32)
    requires
        1 <= year <= 9999,
        1 <= month <= 12,
    ensures
        r == civil_days(year as int, month as int, 1),
{
    proof {
        lemma_days_before_months(year as int);
        lemma_valid_dates_supported(year as int, month as int, 1);
    }
    match crate::temporal::date_days(year, month, 1) {
        Some(d) => d,
        None => {
            proof {
                assert(false);
            }
            0
        },
    }
}

/// The calendar date of a supported day number, or `None` for a day number
/// outside the supported dates.
pub fn date_parts(days: i32) -> (r: Option<DateParts>)
    ensures
        r is None <==> !supported_date(days as int),
        match date_of(days as int) {
            Some((y, m, d)) => r == Some(DateParts { year: y as i32, month: m as u32, day: d as u32 }),
            None => r is None,
        },
{
    if days < MIN_SUPPORTED_DATE || days > MAX_SUPPORTED_DATE {
        proof {
            if exists|y: int, m: int, d: int| valid_date(y, m, d) && #[trigger] civil_days(y, m, d) == days {
                let (y, m, d) = choose|y: int, m: int, d: int|
                    valid_date(y, m, d) && #[trigger] civil_days(y, m, d) == days;
                lemma_valid_dates_supported(y, m, d);
            }
        }
        return None;
    }
    proof {
        lemma_supported_bounds();
    }
    let mut lo: i32 = 1;
    let mut hi: i32 = 9999;
    while lo < hi
        invariant
            1 <= lo <= hi <= 9999,
            civil_days(lo as int, 1, 1) <= days < civil_days(hi + 1, 1, 1),
        decreases hi - lo,
    {
        let mid: i32 = lo + (hi - lo + 1) / 2;
        let start = month_start(mid, 1);
        if start <= days {
            lo = mid;
        } else {
            hi = mid - 1;
        }
    }
    let year = lo;
    proof {
        lemma_year_length(year as int);
        lemma_days_before_months(year as int);
    }
    let mut month: u32 = 1;
    let mut first = month_start(year, 1);
    while month < 12
        invariant
            1 <= year <= 9999,
            1 <= month <= 12,
            first == civil_days(year as int, month as int, 1),
            first <= days < civil_days(year + 1, 1, 1),
            civil_days(year + 1, 1, 1) == civil_days(year as int, 1, 1) + days_before_month(
                year as int,
                13,
            ),
            forall|m: int|
                1 <= m <= 12 ==> #[trigger] days_before_month(year as int, m + 1)
                    == days_before_month(year as int, m) + month_length(year as int, m),
        ensures
            1 <= month <= 12,
            first == civil_days(year as int, month as int, 1),
            first <= days,
            month == 12 || civil_days(year as int, month + 1, 1) > days,
        decreases 12 - month,
    {
        let next = month_start(year, month + 1);
        if next > days {
            break;
        }
        month = month + 1;
        first = next;
    }
    let day = (days - first + 1) as u32;
    proof {
        if month < 12 {
            assert(civil_days(year as int, month + 1, 1) > days);
        }
        assert(days_before_month(year as int, month + 1) == days_before_month(year as int, month as int)
            + month_length(year as int, month as int));
    }
    proof {
        lemma_date_of_day_number(year as int, month as int, day as int);
    }
    Some(DateParts { year, month, day })
}

// ---------------------------------------------------------------------------
// The canonical spelling.
/// The last `width` decimal digits of `v`, zero-padded, as ASCII bytes.
pub open spec fn padded_digits(v: int, width: nat) -> Seq<u8>
    decreases width,
{
    if width == 0 {
        Seq::empty()
    } else {
        padded_digits(v / 10, (width - 1) as nat).push((48 + v % 10) as u8)
    }
}

/// The canonical spelling of a date: `YYYY-MM-DD`, zero-padded.
pub open spec fn date_text(y: int, m: int, d: int) -> Seq<u8> {
    padded_digits(y, 4) + seq![45u8] + padded_digits(m, 2) + seq![45u8] + padded_digits(d, 2)
}

proof fn lemma_padded_digits(v: int, width: nat)
    requires
        0 <= v,
        width <= 4,
        v < crate::temporal::pow10(width),
    ensures
        padded_digits(v, width).len() == width,
        all_digits(padded_digits(v, width)),
        digits_value(padded_digits(v, width)) == v,
    decreases width,
{
    if width > 0 {
        let w1 = (width - 1) as nat;
        assert(crate::temporal::pow10(width) == 10 * crate::temporal::pow10(w1));
        assert(v / 10 < crate::temporal::pow10(w1)) by (nonlinear_arith)
            requires
                0 <= v < 10 * crate::temporal::pow10(w1),
        ;
        assert(0 <= v / 10);
        lemma_padded_digits(v / 10, w1);
        let p = padded_digits(v, width);
        assert(p.drop_last() =~= padded_digits(v / 10, w1));
        assert(v == (v / 10) * 10 + v % 10);
    }
}

proof fn lemma_padded_field(v: int, width: nat)
    requires
        1 <= width <= 4,
        0 <= v < crate::temporal::pow10(width),
    ensures
        uint_field(padded_digits(v, width)) == Some(v),
{
    lemma_padded_digits(v, width);
    reveal_with_fuel(crate::temporal::pow10, 5);
}

/// Reading the canonical spelling of a valid date back gives that date's
/// day number: the spelling is one the date parser accepts.
pub proof fn lemma_date_text_round_trip(y: int, m: int, d: int)
    requires
        valid_date(y, m, d),
    ensures
        date_field_days(date_text(y, m, d)) == Some(civil_days(y, m, d)),
{
    reveal_with_fuel(crate::temporal::pow10, 5);
    lemma_padded_digits(y, 4);
    lemma_padded_digits(m, 2);
    lemma_padded_digits(d, 2);
    lemma_padded_field(y, 4);
    lemma_padded_field(m, 2);
    lemma_padded_field(d, 2);
    let t = date_text(y, m, d);
    assert(t.subrange(0, 4) =~= padded_digits(y, 4));
    assert(t.subrange(5, 7) =~= padded_digits(m, 2));
    assert(t.subrange(8, 10) =~= padded_digits(d, 2));
    lemma_valid_dates_supported(y, m, d);
    assert(date_days_spec(y, m, d) == Some(civil_days(y, m, d)));
}

fn padded_bytes(v: u32, width: usize) -> (r: Vec<u8>)
    requires
        width <= 4,
    ensures
        r@ == padded_digits(v as int, width as nat),
    decreases width,
{
    if width == 0 {
        return Vec::new();
    }
    let mut r = padded_bytes(v / 10, width - 1);
    r.push((48 + v % 10) as u8);
    r
}

/// The canonical `YYYY-MM-DD` spelling of a supported day number, or `None`
/// for a day number outside the supported dates.
pub fn format_date(days: i32) -> (r: Option<String>)
    ensures
        match date_of(days as int) {
            Some((y, m, d)) => r matches Some(s) && s@ == bytes_as_chars(date_text(y, m, d))
                && encode_utf8(s@) == date_text(y, m, d),
            None => r is None,
        },
{
    let parts = match date_parts(days) {
        Some(p) => p,
        None => {
            return None;
        },
    };
    let mut bytes = padded_bytes(parts.year as u32, 4);
    bytes.push(45u8);
    let mut month = padded_bytes(parts.month, 2);
    bytes.append(&mut month);
    bytes.push(45u8);
    let mut day = padded_bytes(parts.day, 2);
    bytes.append(&mut day);
    let ghost text = date_text(parts.year as int, parts.month as int, parts.day as int);
    assert(bytes@ =~= text);
    proof {
        reveal_with_fuel(crate::temporal::pow10, 5);
        assert(valid_date(parts.year as int, parts.month as int, parts.day as int));
        lemma_padded_digits(parts.year as int, 4);
        lemma_padded_digits(parts.month as int, 2);
        lemma_padded_digits(parts.day as int, 2);
        assert forall|k: int| 0 <= k < text.len() implies text[k] < 128 by {
            if k < 4 {
                assert(text[k] == padded_digits(parts.year as int, 4)[k]);
            } else if 5 <= k < 7 {
                assert(text[k] == padded_digits(parts.month as int, 2)[k - 5]);
            } else if 8 <= k {
                assert(text[k] == padded_digits(parts.day as int, 2)[k - 8]);
            }
        }
    }
    let mut out = String::new();
    let mut i: usize = 0;
    while i < bytes.len()
        invariant
            i <= bytes@.len(),
            bytes@ == text,
            out@ == bytes_as_chars(text.take(i as int)),
            forall|k: int| 0 <= k < text.len() ==> text[k] < 128,
        decreases bytes@.len() - i,
    {
        push_char(&mut out, bytes[i] as char);
        assert(bytes_as_chars(text.take(i + 1)) =~= bytes_as_chars(text.take(i as int)).push(
            bytes[i as int] as char,
        ));
        i = i + 1;
    }
    assert(text.take(i as int) =~= text);
    proof {
        assert(is_ascii_chars(out@));
        is_ascii_chars_encode_utf8(out@);
        assert(encode_utf8(out@) =~= text);
    }
    Some(out)
}

} // verus!
