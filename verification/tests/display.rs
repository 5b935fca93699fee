use bluetooth_tracker::display::{CivilDateTime, date_time_text, format_duration, format_timestamp_value};
use bluetooth_tracker::timestamp::Timestamp;

fn timestamp(value: time::OffsetDateTime) -> Timestamp {
    Timestamp::new(value.unix_timestamp(), value.nanosecond(), value.offset().whole_seconds())
}

#[test]
fn format_timestamp_value_keeps_only_date_and_time() {
    let value = time::Date::from_calendar_date(2026, time::Month::June, 28)
        .unwrap()
        .with_hms_nano(12, 0, 1, 123_456_789)
        .unwrap()
        .assume_offset(time::UtcOffset::from_hms(-4, 0, 0).unwrap());
    assert_eq!(format_timestamp_value(timestamp(value)), "2026-06-28 12:00:01");
}

#[test]
fn format_timestamp_omits_subsecond_precision() {
    let value = time::Date::from_calendar_date(2026, time::Month::June, 28)
        .unwrap()
        .with_hms_nano(12, 0, 1, 123_456_789)
        .unwrap()
        .assume_utc();
    assert!(!format_timestamp_value(timestamp(value)).contains('.'));
}

#[test]
fn timestamps_are_shown_at_their_own_offset() {
    let utc = timestamp(time::OffsetDateTime::UNIX_EPOCH);
    assert_eq!(format_timestamp_value(utc), "1970-01-01 00:00:00");
    let east = Timestamp::new(0, 0, 5 * 3600 + 30 * 60);
    assert_eq!(format_timestamp_value(east), "1970-01-01 05:30:00");
    let west = Timestamp::new(-1, 999_999_999, -3600);
    assert_eq!(format_timestamp_value(west), "1969-12-31 22:59:59");
}

#[test]
fn date_time_text_pads_fields_and_falls_back_to_unix_time() {
    let civil = CivilDateTime { year: 987, month: 3, day: 4, hour: 5, minute: 6, second: 7 };
    assert_eq!(date_time_text(Some(civil), 0), "0987-03-04 05:06:07");
    let early = CivilDateTime { year: -44, month: 3, day: 15, hour: 12, minute: 0, second: 0 };
    assert_eq!(date_time_text(Some(early), 0), "-0044-03-15 12:00:00");
    let late = CivilDateTime { year: 12345, month: 12, day: 31, hour: 23, minute: 59, second: 59 };
    assert_eq!(date_time_text(Some(late), 0), "+12345-12-31 23:59:59");
    assert_eq!(date_time_text(None, -1_234), "-1234");
    assert_eq!(date_time_text(None, 42), "42");
    assert_eq!(date_time_text(None, i64::MIN), "-9223372036854775808");
}

#[test]
fn durations_leave_out_leading_zero_units() {
    assert_eq!(format_duration(3725), "1h 2m 5s");
    assert_eq!(format_duration(3600), "1h 0m 0s");
    assert_eq!(format_duration(65), "1m 5s");
    assert_eq!(format_duration(5), "5s");
    assert_eq!(format_duration(0), "0s");
    assert_eq!(format_duration(-30), "0s");
    assert_eq!(format_duration(90061), "25h 1m 1s");
}
