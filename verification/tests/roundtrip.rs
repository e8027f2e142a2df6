use riso8601::emit::format_datetime;
use riso8601::parse::parse_datetime;
use riso8601::types::ParsedDateTime;

fn value(
    year: u32,
    month: u8,
    day: u8,
    hour: u8,
    minute: u8,
    second: u8,
    us: u32,
    off: Option<i32>,
) -> ParsedDateTime {
    ParsedDateTime {
        year,
        month,
        day,
        hour,
        minute,
        second,
        microsecond: us,
        offset_seconds: off,
    }
}

fn check_round_trip(p: ParsedDateTime) {
    let text = format_datetime(&p);
    assert_eq!(parse_datetime(&text), Ok(p));
}

#[test]
fn formatted_text_is_canonical() {
    let p = value(2020, 7, 16, 19, 20, 1, 1, Some(3600));
    assert_eq!(
        format_datetime(&p),
        b"2020-07-16T19:20:01.000001+01:00".to_vec()
    );
    let q = value(2020, 7, 16, 19, 20, 0, 0, None);
    assert_eq!(format_datetime(&q), b"2020-07-16T19:20:00.000000".to_vec());
}

#[test]
fn round_trip_naive() {
    check_round_trip(value(2020, 7, 16, 19, 20, 0, 0, None));
    check_round_trip(value(1, 1, 1, 0, 0, 0, 0, None));
    check_round_trip(value(9999, 12, 31, 23, 59, 59, 999999, None));
}

#[test]
fn round_trip_aware() {
    check_round_trip(value(2020, 7, 16, 19, 20, 1, 1, Some(3600)));
    check_round_trip(value(1999, 2, 28, 6, 5, 4, 300, Some(-18000)));
    check_round_trip(value(2038, 1, 19, 3, 14, 7, 0, Some(0)));
    check_round_trip(value(2024, 6, 30, 12, 0, 0, 123456, Some(19800)));
    check_round_trip(value(2024, 6, 30, 12, 0, 0, 123456, Some(-19800)));
    check_round_trip(value(2000, 1, 1, 0, 0, 0, 0, Some(359940)));
    check_round_trip(value(2000, 1, 1, 0, 0, 0, 0, Some(-359940)));
}
