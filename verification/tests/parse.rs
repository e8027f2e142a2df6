use riso8601::parse::parse_datetime;
use riso8601::types::{ParseError, ParsedDateTime};

fn naive(year: u32, month: u8, day: u8, hour: u8, minute: u8, second: u8, us: u32) -> ParsedDateTime {
    ParsedDateTime {
        year,
        month,
        day,
        hour,
        minute,
        second,
        microsecond: us,
        offset_seconds: None,
    }
}

fn aware(
    year: u32,
    month: u8,
    day: u8,
    hour: u8,
    minute: u8,
    second: u8,
    us: u32,
    off: i32,
) -> ParsedDateTime {
    ParsedDateTime {
        year,
        month,
        day,
        hour,
        minute,
        second,
        microsecond: us,
        offset_seconds: Some(off),
    }
}

#[test]
fn scenario_extended_minimal() {
    assert_eq!(
        parse_datetime(b"2020-07-16T19:20"),
        Ok(naive(2020, 7, 16, 19, 20, 0, 0))
    );
}

#[test]
fn scenario_basic_minimal() {
    assert_eq!(
        parse_datetime(b"20200716T1920"),
        Ok(naive(2020, 7, 16, 19, 20, 0, 0))
    );
    assert_eq!(
        parse_datetime(b"20200716T1920"),
        parse_datetime(b"2020-07-16T19:20")
    );
}

#[test]
fn scenario_full_aware() {
    assert_eq!(
        parse_datetime(b"2020-07-16T19:20:01.000001+01:00"),
        Ok(aware(2020, 7, 16, 19, 20, 1, 1, 3600))
    );
}

#[test]
fn scenario_zulu() {
    assert_eq!(
        parse_datetime(b"2020-07-16T19:20:01Z"),
        Ok(aware(2020, 7, 16, 19, 20, 1, 0, 0))
    );
}

#[test]
fn scenario_garbage() {
    assert_eq!(parse_datetime(b"abcd"), Err(ParseError::InvalidFormat));
}

#[test]
fn scenario_month_out_of_range() {
    assert_eq!(parse_datetime(b"2020-13-16T19:20"), Err(ParseError::RangeError));
}

#[test]
fn seconds_without_fraction() {
    assert_eq!(
        parse_datetime(b"2020-07-16T19:20:01"),
        Ok(naive(2020, 7, 16, 19, 20, 1, 0))
    );
}

#[test]
fn fraction_without_offset() {
    assert_eq!(
        parse_datetime(b"2020-07-16T19:20:01.000001"),
        Ok(naive(2020, 7, 16, 19, 20, 1, 1))
    );
}

#[test]
fn fraction_is_a_literal_count() {
    // The digit run is read as a literal microsecond count, not scaled
    // by its length: `.5` is 5 microseconds.
    assert_eq!(
        parse_datetime(b"2020-07-16T19:20:01.5"),
        Ok(naive(2020, 7, 16, 19, 20, 1, 5))
    );
    assert_eq!(
        parse_datetime(b"2020-07-16T19:20:01.999999"),
        Ok(naive(2020, 7, 16, 19, 20, 1, 999999))
    );
}

#[test]
fn fraction_leading_zeros() {
    assert_eq!(
        parse_datetime(b"2020-07-16T19:20:01.000000000000001"),
        Ok(naive(2020, 7, 16, 19, 20, 1, 1))
    );
}

#[test]
fn offset_zero_both_spellings() {
    let z = parse_datetime(b"2020-07-16T19:20:01Z").unwrap();
    let plus = parse_datetime(b"2020-07-16T19:20:01+00:00").unwrap();
    assert_eq!(z.offset_seconds, Some(0));
    assert_eq!(plus.offset_seconds, Some(0));
    assert_eq!(z, plus);
}

#[test]
fn offset_plus_one_hour() {
    let p = parse_datetime(b"2020-07-16T19:20:01+01:00").unwrap();
    assert_eq!(p.offset_seconds, Some(3600));
}

#[test]
fn offset_minus_five_hours() {
    let p = parse_datetime(b"2020-07-16T19:20:01-05:00").unwrap();
    assert_eq!(p.offset_seconds, Some(-18000));
}

#[test]
fn offset_basic_no_colon() {
    let p = parse_datetime(b"2020-07-16T19:20:01+0530").unwrap();
    assert_eq!(p.offset_seconds, Some(19800));
}

#[test]
fn offset_hour_only() {
    let p = parse_datetime(b"2020-07-16T19:20:01+05").unwrap();
    assert_eq!(p.offset_seconds, Some(18000));
}

#[test]
fn offset_magnitude_is_unchecked() {
    // Beyond the two-digit parse no bound is enforced on the offset.
    let p = parse_datetime(b"2020-07-16T19:20:01+99:99").unwrap();
    assert_eq!(p.offset_seconds, Some(99 * 3600 + 99 * 60));
}

#[test]
fn boundary_year_zero() {
    assert_eq!(parse_datetime(b"0000-07-16T19:20"), Err(ParseError::RangeError));
}

#[test]
fn boundary_month_thirteen() {
    assert_eq!(parse_datetime(b"2020-13-01T19:20"), Err(ParseError::RangeError));
}

#[test]
fn boundary_day_thirty_two() {
    assert_eq!(parse_datetime(b"2020-07-32T19:20"), Err(ParseError::RangeError));
}

#[test]
fn boundary_day_zero() {
    assert_eq!(parse_datetime(b"2020-07-00T19:20"), Err(ParseError::RangeError));
}

#[test]
fn boundary_hour_twenty_four() {
    assert_eq!(parse_datetime(b"2020-07-16T24:20"), Err(ParseError::RangeError));
}

#[test]
fn boundary_minute_sixty() {
    // The minute is validated against 0..=59, the conventional
    // ISO-8601 bound.
    assert_eq!(parse_datetime(b"2020-07-16T19:60"), Err(ParseError::RangeError));
    assert_eq!(
        parse_datetime(b"2020-07-16T19:59"),
        Ok(naive(2020, 7, 16, 19, 59, 0, 0))
    );
}

#[test]
fn boundary_second_sixty() {
    assert_eq!(parse_datetime(b"2020-07-16T19:20:60"), Err(ParseError::RangeError));
}

#[test]
fn boundary_microsecond_seven_digits() {
    assert_eq!(
        parse_datetime(b"2020-07-16T19:20:01.9999999"),
        Err(ParseError::RangeError)
    );
    assert_eq!(
        parse_datetime(b"2020-07-16T19:20:01.1000000"),
        Err(ParseError::RangeError)
    );
}

#[test]
fn malformed_too_short() {
    assert_eq!(parse_datetime(b""), Err(ParseError::InvalidFormat));
    assert_eq!(parse_datetime(b"2020-07-16T1"), Err(ParseError::InvalidFormat));
}

#[test]
fn malformed_non_digit_fields() {
    assert_eq!(parse_datetime(b"20x0-07-16T19:20"), Err(ParseError::InvalidFormat));
    assert_eq!(parse_datetime(b"2020-0x-16T19:20"), Err(ParseError::InvalidFormat));
    assert_eq!(parse_datetime(b"2020-07-1xT19:20"), Err(ParseError::InvalidFormat));
    assert_eq!(parse_datetime(b"2020-07-16T1x:20"), Err(ParseError::InvalidFormat));
    assert_eq!(parse_datetime(b"2020-07-16T19:2x"), Err(ParseError::InvalidFormat));
}

#[test]
fn malformed_trailing_character() {
    assert_eq!(parse_datetime(b"2020-07-16T19:20x"), Err(ParseError::InvalidFormat));
    assert_eq!(
        parse_datetime(b"2020-07-16T19:20:01x"),
        Err(ParseError::InvalidFormat)
    );
    assert_eq!(
        parse_datetime(b"2020-07-16T19:20:01.5x"),
        Err(ParseError::InvalidFormat)
    );
}

#[test]
fn malformed_empty_fraction() {
    assert_eq!(parse_datetime(b"2020-07-16T19:20:01."), Err(ParseError::InvalidFormat));
}

#[test]
fn malformed_timezone() {
    assert_eq!(
        parse_datetime(b"2020-07-16T19:20:01Zx"),
        Err(ParseError::InvalidFormat)
    );
    assert_eq!(
        parse_datetime(b"2020-07-16T19:20:01+0"),
        Err(ParseError::InvalidFormat)
    );
    assert_eq!(
        parse_datetime(b"2020-07-16T19:20:01+01:0"),
        Err(ParseError::InvalidFormat)
    );
    assert_eq!(
        parse_datetime(b"2020-07-16T19:20:01+01:000"),
        Err(ParseError::InvalidFormat)
    );
    assert_eq!(
        parse_datetime(b"2020-07-16T19:20:01+0x"),
        Err(ParseError::InvalidFormat)
    );
}

#[test]
fn mixed_separators_accepted() {
    // The two date separators are inferred independently, so mixed
    // forms are accepted.
    assert_eq!(
        parse_datetime(b"2020-0716T19:20"),
        Ok(naive(2020, 7, 16, 19, 20, 0, 0))
    );
    assert_eq!(
        parse_datetime(b"202007-16T1920"),
        Ok(naive(2020, 7, 16, 19, 20, 0, 0))
    );
}

#[test]
fn trailing_t_basic_form() {
    // A lone trailing `T` after the minute is consumed with second 0.
    assert_eq!(
        parse_datetime(b"20200716T1920T"),
        Ok(naive(2020, 7, 16, 19, 20, 0, 0))
    );
}

#[test]
fn basic_form_with_seconds() {
    assert_eq!(
        parse_datetime(b"20200716T1920:01"),
        Ok(naive(2020, 7, 16, 19, 20, 1, 0))
    );
}
