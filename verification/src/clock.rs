//! `std::clock` date arithmetic: the supported date range, adding days,
//! the days between two dates, and the parts of a date.

use vstd::prelude::*;

use crate::strbuf::str_eq;

verus! {

/// The first supported date, 0001-01-01, in days since 1970-01-01.
pub const MIN_SUPPORTED_DATE: i32 = -719162;

/// The last supported date, 9999-12-31, in days since 1970-01-01.
pub const MAX_SUPPORTED_DATE: i32 = 2932896;

/// A date outside the supported range.
#[derive(Debug, Clone, Copy, PartialEq, Eq, Structural)]
pub struct TemporalOverflow;

/// Whether a day count is inside the supported range.
pub open spec fn supported_date(days: int) -> bool {
    MIN_SUPPORTED_DATE <= days <= MAX_SUPPORTED_DATE
}

/// A day count inside the supported range, or the temporal overflow.
pub fn require_supported_date(days: i32) -> (r: Result<i32, TemporalOverflow>)
    ensures
        supported_date(days as int) ==> r == Ok::<i32, TemporalOverflow>(days),
        !supported_date(days as int) ==> r is Err,
{
    if MIN_SUPPORTED_DATE <= days && days <= MAX_SUPPORTED_DATE {
        Ok(days)
    } else {
        Err(TemporalOverflow)
    }
}

/// `date` moved by `days` days: both the date and the result must be
/// supported dates.
pub fn add_days(date: i32, days: i64) -> (r: Result<i32, TemporalOverflow>)
    ensures
        supported_date(date as int) && supported_date(date + days) ==> r == Ok::<
            i32,
            TemporalOverflow,
        >((date + days) as i32),
        !(supported_date(date as int) && supported_date(date + days)) ==> r is Err,
{
    let start = match require_supported_date(date) {
        Ok(d) => d,
        Err(e) => return Err(e),
    };
    if days < (MIN_SUPPORTED_DATE as i64) - (start as i64) || days > (MAX_SUPPORTED_DATE as i64)
        - (start as i64) {
        return Err(TemporalOverflow);
    }
    let result = (start as i64 + days) as i32;
    require_supported_date(result)
}

/// The days from `start` to `end`; both must be supported dates.
pub fn days_between(start: i32, end: i32) -> (r: Result<i64, TemporalOverflow>)
    ensures
        supported_date(start as int) && supported_date(end as int) ==> r == Ok::<
            i64,
            TemporalOverflow,
        >((end - start) as i64),
        !(supported_date(start as int) && supported_date(end as int)) ==> r is Err,
{
    let s = match require_supported_date(start) {
        Ok(d) => d,
        Err(e) => return Err(e),
    };
    let e = match require_supported_date(end) {
        Ok(d) => d,
        Err(e) => return Err(e),
    };
    Ok(e as i64 - s as i64)
}

/// The parts of a date that `std::clock` reads.
#[derive(Debug, Clone, Copy, PartialEq, Eq, Structural)]
pub enum ClockDatePart {
    Year,
    Month,
    Day,
}

/// The date part an operation name selects.
pub open spec fn date_part_named(name: Seq<char>) -> Option<ClockDatePart> {
    if name == "year"@ {
        Some(ClockDatePart::Year)
    } else if name == "month"@ {
        Some(ClockDatePart::Month)
    } else if name == "day"@ {
        Some(ClockDatePart::Day)
    } else {
        None
    }
}

impl ClockDatePart {
    /// The date part named `name`, if any.
    pub fn from_name(name: &str) -> (r: Option<Self>)
        ensures
            r == date_part_named(name@),
    {
        if str_eq(name, "year") {
            Some(ClockDatePart::Year)
        } else if str_eq(name, "month") {
            Some(ClockDatePart::Month)
        } else if str_eq(name, "day") {
            Some(ClockDatePart::Day)
        } else {
            None
        }
    }

    /// The name of this date part.
    pub fn name(self) -> (r: &'static str)
        ensures
            r@ == (match self {
                ClockDatePart::Year => "year"@,
                ClockDatePart::Month => "month"@,
                ClockDatePart::Day => "day"@,
            }),
            date_part_named(r@) == Some(self),
    {
        proof {
            reveal_strlit("year");
            reveal_strlit("month");
            reveal_strlit("day");
            assert("year"@ != "month"@ && "year"@ != "day"@ && "month"@ != "day"@) by {
                assert("year"@[0] != "month"@[0]);
                assert("year"@[0] != "day"@[0]);
                assert("month"@[0] != "day"@[0]);
            }
        }
        match self {
            ClockDatePart::Year => "year",
            ClockDatePart::Month => "month",
            ClockDatePart::Day => "day",
        }
    }
}

/// The year, month or day of `date`, or the temporal overflow for a day
/// number outside the supported dates.
pub fn date_part(date: i32, part: ClockDatePart) -> (r: Result<i64, TemporalOverflow>)
    ensures
        match crate::calendar::date_of(date as int) {
            Some((y, m, d)) => r == Ok::<i64, TemporalOverflow>(
                match part {
                    ClockDatePart::Year => y as i64,
                    ClockDatePart::Month => m as i64,
                    ClockDatePart::Day => d as i64,
                },
            ),
            None => r is Err,
        },
{
    match crate::calendar::date_parts(date) {
        Some(parts) => Ok(
            match part {
                ClockDatePart::Year => parts.year as i64,
                ClockDatePart::Month => parts.month as i64,
                ClockDatePart::Day => parts.day as i64,
            },
        ),
        None => Err(TemporalOverflow),
    }
}

} // verus!
