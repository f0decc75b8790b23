use marrow_run::calendar::{date_parts, format_date, DateParts};
use marrow_run::clock::{date_part, ClockDatePart, TemporalOverflow};
use marrow_run::numeral::{i64_text, parse_canonical_int, u64_text};
use marrow_run::temporal::{
    date_days, parse_date, parse_iso8601_duration_nanos, parse_rfc3339_instant_nanos, parse_time_and_zone,
    DurationParseError,
};

#[test]
fn canonical_ints_only() {
    assert_eq!(parse_canonical_int("0"), Some(0));
    assert_eq!(parse_canonical_int("-15"), Some(-15));
    assert_eq!(parse_canonical_int("-0"), None);
    assert_eq!(parse_canonical_int("007"), None);
    assert_eq!(parse_canonical_int("+7"), None);
    assert_eq!(parse_canonical_int(""), None);
    assert_eq!(parse_canonical_int("-"), None);
    assert_eq!(parse_canonical_int("1 "), None);
    assert_eq!(parse_canonical_int("99999999999999999999999"), None);
}

#[test]
fn decimal_text_matches_to_string() {
    for v in [0i64, 7, -7, 1234567890, i64::MIN, i64::MAX] {
        assert_eq!(i64_text(v), v.to_string());
    }
    assert_eq!(u64_text(u64::MAX), u64::MAX.to_string());
}

#[test]
fn durations_sum_exact_components() {
    let s = 1_000_000_000i128;
    assert_eq!(parse_iso8601_duration_nanos("PT1S"), Ok(s));
    assert_eq!(parse_iso8601_duration_nanos("P1DT2H3M4.5S"), Ok(86_400 * s + 7_200 * s + 180 * s + 4 * s + s / 2));
    assert_eq!(parse_iso8601_duration_nanos("-PT1M"), Ok(-60 * s));
    assert_eq!(parse_iso8601_duration_nanos("P1Y"), Err(DurationParseError::CalendarAmbiguous));
    assert_eq!(parse_iso8601_duration_nanos("P1M"), Err(DurationParseError::CalendarAmbiguous));
    assert_eq!(parse_iso8601_duration_nanos("PT"), Err(DurationParseError::Malformed));
    assert_eq!(parse_iso8601_duration_nanos("1S"), Err(DurationParseError::Malformed));
}

#[test]
fn duration_messages_note_calendar_components() {
    assert_eq!(DurationParseError::Malformed.message("bad"), "bad");
    assert!(DurationParseError::CalendarAmbiguous.message("bad").starts_with("bad (calendar-ambiguous"));
}

#[test]
fn times_and_zones() {
    assert_eq!(parse_time_and_zone(b"01:02:03Z"), Some((3723, 0, 0)));
    assert_eq!(parse_time_and_zone(b"00:00:00.25Z"), Some((0, 250_000_000, 0)));
    assert_eq!(
        parse_time_and_zone(b"12:00:00+02:30"),
        Some((43_200, 0, (2 * 3600 + 30 * 60) * 1_000_000_000))
    );
    assert_eq!(parse_time_and_zone(b"24:00:00Z"), None);
    assert_eq!(parse_time_and_zone(b"12:00Z"), None);
}

#[test]
fn calendar_day_numbers() {
    assert_eq!(date_days(1970, 1, 1), Some(0));
    assert_eq!(date_days(1969, 12, 31), Some(-1));
    assert_eq!(date_days(1, 1, 1), Some(-719_162));
    assert_eq!(date_days(9999, 12, 31), Some(2_932_896));
    assert_eq!(date_days(2000, 3, 1), Some(11_017));
    assert_eq!(date_days(2024, 2, 29), Some(19_782));
    assert_eq!(date_days(2023, 2, 29), None);
    assert_eq!(date_days(1900, 2, 29), None);
    assert_eq!(date_days(2000, 2, 29), Some(11_016));
    assert_eq!(date_days(2024, 4, 31), None);
    assert_eq!(date_days(2024, 13, 1), None);
    assert_eq!(date_days(2024, 0, 1), None);
    assert_eq!(date_days(2024, 1, 0), None);
}

#[test]
fn fixed_width_dates_only() {
    assert_eq!(parse_date(b"1970-01-02"), Some(1));
    assert_eq!(parse_date(b"2024-02-29"), Some(19_782));
    assert_eq!(parse_date(b"2024-2-29"), None);
    assert_eq!(parse_date(b"2024/02/29"), None);
    assert_eq!(parse_date(b"2023-02-29"), None);
    assert_eq!(parse_date(b"+024-02-09"), None);
}

#[test]
fn rfc3339_instants_shift_to_utc() {
    let s = 1_000_000_000i128;
    assert_eq!(parse_rfc3339_instant_nanos("1970-01-01T00:00:00Z"), Some(0));
    assert_eq!(parse_rfc3339_instant_nanos("1970-01-01T00:00:01.500Z"), Some(s + s / 2));
    assert_eq!(parse_rfc3339_instant_nanos("1970-01-01T01:00:00+01:00"), Some(0));
    assert_eq!(parse_rfc3339_instant_nanos("1969-12-31T23:00:00-01:00"), Some(0));
    assert_eq!(parse_rfc3339_instant_nanos("2024-02-29T12:30:45.000000001Z"), Some((19_782 * 86_400 + 45_045) * s + 1));
    assert_eq!(parse_rfc3339_instant_nanos("0001-01-01T00:00:00Z"), Some(-719_162 * 86_400 * s));
    assert_eq!(parse_rfc3339_instant_nanos("0001-01-01T00:00:00+00:01"), None);
    assert_eq!(parse_rfc3339_instant_nanos("0000-12-31T23:59:59Z"), None);
    assert_eq!(parse_rfc3339_instant_nanos("1970-01-01 00:00:00Z"), None);
    assert_eq!(parse_rfc3339_instant_nanos("1970-01-01T00:00:00"), None);
    assert_eq!(parse_rfc3339_instant_nanos("1970-01-01T24:00:00Z"), None);
    assert_eq!(parse_rfc3339_instant_nanos("1970-01-01T00:00:00.1234567891Z"), None);
}

#[test]
fn negated_durations_mirror_positive_spellings() {
    for body in ["P2D", "PT1H30M", "PT0.25S", "P1DT1S"] {
        let positive = parse_iso8601_duration_nanos(body).unwrap();
        assert_eq!(parse_iso8601_duration_nanos(&format!("-{body}")), Ok(-positive));
    }
    assert_eq!(parse_iso8601_duration_nanos("PT0S"), Ok(0));
    assert!(matches!(parse_iso8601_duration_nanos("-PT0S"), Err(DurationParseError::Malformed)));
    assert!(matches!(parse_iso8601_duration_nanos("-P1Y"), Err(DurationParseError::CalendarAmbiguous)));
}

#[test]
fn day_numbers_split_into_calendar_dates() {
    let d = |year: i32, month: u32, day: u32| Some(DateParts { year, month, day });
    assert_eq!(date_parts(0), d(1970, 1, 1));
    assert_eq!(date_parts(-1), d(1969, 12, 31));
    assert_eq!(date_parts(19_723), d(2024, 1, 1));
    assert_eq!(date_parts(19_782), d(2024, 2, 29));
    assert_eq!(date_parts(11_016), d(2000, 2, 29));
    assert_eq!(date_parts(-719_162), d(1, 1, 1));
    assert_eq!(date_parts(2_932_896), d(9999, 12, 31));
    assert_eq!(date_parts(-719_163), None);
    assert_eq!(date_parts(2_932_897), None);
    for days in (-719_162..=2_932_896).step_by(997) {
        let p = date_parts(days).unwrap();
        assert_eq!(date_days(p.year, p.month, p.day), Some(days));
    }
}

#[test]
fn clock_date_parts_read_the_calendar() {
    assert_eq!(date_part(19_782, ClockDatePart::Year), Ok(2024));
    assert_eq!(date_part(19_782, ClockDatePart::Month), Ok(2));
    assert_eq!(date_part(19_782, ClockDatePart::Day), Ok(29));
    assert_eq!(date_part(3_000_000, ClockDatePart::Year), Err(TemporalOverflow));
}

#[test]
fn dates_have_one_canonical_spelling() {
    assert_eq!(format_date(19_723).as_deref(), Some("2024-01-01"));
    assert_eq!(format_date(0).as_deref(), Some("1970-01-01"));
    assert_eq!(format_date(-719_162).as_deref(), Some("0001-01-01"));
    assert_eq!(format_date(2_932_896).as_deref(), Some("9999-12-31"));
    assert_eq!(format_date(2_932_897), None);
    for days in (-719_162..=2_932_896).step_by(1_009) {
        let text = format_date(days).unwrap();
        assert_eq!(parse_date(text.as_bytes()), Some(days));
    }
}
