use chrono::{DateTime, Local};
use recent_listing::absolute_time::{
    human_readable_system_time, time_text_at, FIRST_SECOND_WITH_DATE,
    LAST_SECOND_WITH_DATE,
};
use recent_listing::relative_time::{
    decimal_text, get_relative_time, relative_time_of, seconds_ago_text, TimeError,
};
use recent_listing::timestamp::Timestamp;

fn at(secs: i64, nanos: u32) -> Timestamp {
    Timestamp::new(secs, nanos).unwrap()
}

fn ago(seconds: i64) -> Result<String, TimeError> {
    let now = at(1_700_000_000, 0);
    get_relative_time(&now, &at(1_700_000_000 - seconds, 0))
}

#[test]
fn timestamp_wants_nanoseconds_within_a_second() {
    assert!(Timestamp::new(0, 0).is_some());
    assert!(Timestamp::new(-1, 999_999_999).is_some());
    assert!(Timestamp::new(5, 1_000_000_000).is_none());
    assert!(Timestamp::new(5, u32::MAX).is_none());
    let t = at(-12, 34);
    assert_eq!(t.secs(), -12);
    assert_eq!(t.subsec_nanos(), 34);
}

#[test]
fn later_instant_is_after_the_earlier() {
    assert!(at(2, 0).is_after(&at(1, 999_999_999)));
    assert!(at(1, 5).is_after(&at(1, 4)));
    assert!(!at(1, 4).is_after(&at(1, 4)));
    assert!(!at(1, 4).is_after(&at(1, 5)));
    assert!(at(0, 0).is_after(&at(-1, 999_999_999)));
    assert!(!at(i64::MIN, 0).is_after(&at(i64::MAX, 0)));
}

#[test]
fn seconds_since_counts_whole_seconds() {
    assert_eq!(at(10, 0).seconds_since(&at(10, 0)), Some(0));
    assert_eq!(at(10, 500).seconds_since(&at(9, 501)), Some(0));
    assert_eq!(at(10, 500).seconds_since(&at(9, 500)), Some(1));
    assert_eq!(at(10, 0).seconds_since(&at(7, 999_999_999)), Some(2));
    assert_eq!(at(3, 0).seconds_since(&at(-3, 0)), Some(6));
    assert_eq!(at(i64::MAX, 999_999_999).seconds_since(&at(i64::MIN, 0)), Some(u64::MAX));
    assert_eq!(at(i64::MAX, 0).seconds_since(&at(i64::MIN, 1)), Some(u64::MAX - 1));
}

#[test]
fn seconds_since_a_later_instant_is_none() {
    assert_eq!(at(10, 0).seconds_since(&at(10, 1)), None);
    assert_eq!(at(-10, 0).seconds_since(&at(10, 0)), None);
}

#[test]
fn numbers_in_decimal() {
    assert_eq!(decimal_text(0), "0");
    assert_eq!(decimal_text(7), "7");
    assert_eq!(decimal_text(10), "10");
    assert_eq!(decimal_text(1234567890), "1234567890");
    assert_eq!(decimal_text(u64::MAX), "18446744073709551615");
}

#[test]
fn duration_string_for_seconds_in_the_past() {
    assert_eq!(seconds_ago_text(0), "-0s");
    assert_eq!(seconds_ago_text(90), "-90s");
    assert_eq!(seconds_ago_text(u64::MAX), format!("-{}s", u64::MAX));
}

#[test]
fn phrases_for_the_time_that_passed() {
    assert_eq!(ago(0), Ok("a few seconds ago".to_string()));
    assert_eq!(ago(44), Ok("a few seconds ago".to_string()));
    assert_eq!(ago(45), Ok("a minute ago".to_string()));
    assert_eq!(ago(300), Ok("5 minutes ago".to_string()));
    assert_eq!(ago(3600), Ok("an hour ago".to_string()));
    assert_eq!(ago(2 * 3600), Ok("2 hours ago".to_string()));
    assert_eq!(ago(24 * 3600), Ok("a day ago".to_string()));
    assert_eq!(ago(2 * 86400), Ok("2 days ago".to_string()));
    assert_eq!(ago(3 * 86400), Ok("3 days ago".to_string()));
    assert_eq!(ago(30 * 86400), Ok("a month ago".to_string()));
    assert_eq!(ago(365 * 86400), Ok("a year ago".to_string()));
}

#[test]
fn fractions_of_a_second_are_dropped() {
    let now = at(1000, 100);
    assert_eq!(get_relative_time(&now, &at(955, 101)), Ok("a few seconds ago".to_string()));
    assert_eq!(get_relative_time(&now, &at(955, 100)), Ok("a minute ago".to_string()));
}

#[test]
fn an_instant_after_now_has_no_relative_time() {
    let now = at(1000, 0);
    assert_eq!(get_relative_time(&now, &at(1000, 1)), Err(TimeError::LaterThanNow));
    assert_eq!(get_relative_time(&now, &at(2000, 0)), Err(TimeError::LaterThanNow));
    assert_eq!(get_relative_time(&now, &now), Ok("a few seconds ago".to_string()));
}

#[test]
fn the_longest_time_that_can_pass_has_a_phrase() {
    let relative = get_relative_time(&at(i64::MAX, 999_999_999), &at(i64::MIN, 0));
    assert!(relative.unwrap().ends_with(" years ago"));
}

#[test]
fn outcome_of_the_phrase_maker_becomes_a_relative_time() {
    assert_eq!(relative_time_of(Ok("2 days ago".to_string())), Ok("2 days ago".to_string()));
    assert_eq!(
        relative_time_of(Err(humantime::DurationError::NumberOverflow)),
        Err(TimeError::NoPhrase)
    );
    assert_eq!(relative_time_of(Err(humantime::DurationError::Empty)), Err(TimeError::NoPhrase));
}

#[test]
fn time_and_date_at_greenwich() {
    assert_eq!(time_text_at(&at(0, 0), 0), Some("00:00:00 01-Jan-1970".to_string()));
    assert_eq!(time_text_at(&at(1_700_000_000, 5), 0), Some("22:13:20 14-Nov-2023".to_string()));
    assert_eq!(time_text_at(&at(-1, 0), 0), Some("23:59:59 31-Dec-1969".to_string()));
    assert_eq!(time_text_at(&at(951_782_400, 0), 0), Some("00:00:00 29-Feb-2000".to_string()));
}

#[test]
fn time_and_date_east_and_west_of_greenwich() {
    assert_eq!(time_text_at(&at(0, 0), 3600), Some("01:00:00 01-Jan-1970".to_string()));
    assert_eq!(time_text_at(&at(0, 0), -5 * 3600), Some("19:00:00 31-Dec-1969".to_string()));
    assert_eq!(
        time_text_at(&at(1_700_000_000, 0), 5 * 3600 + 1800),
        Some("03:43:20 15-Nov-2023".to_string())
    );
}

#[test]
fn no_date_outside_the_calendar_or_the_zones() {
    assert_eq!(time_text_at(&at(i64::MAX, 0), 0), None);
    assert_eq!(time_text_at(&at(i64::MIN, 0), 0), None);
    assert_eq!(time_text_at(&at(0, 0), 86_400), None);
    assert_eq!(time_text_at(&at(0, 0), -86_400), None);
    assert_eq!(human_readable_system_time(&at(i64::MAX, 0), Some(0)), None);
    assert_eq!(human_readable_system_time(&at(0, 0), Some(86_400)), None);
}

#[test]
fn no_offset_no_date() {
    assert_eq!(human_readable_system_time(&at(0, 0), None), None);
    assert_eq!(
        human_readable_system_time(&at(0, 0), Some(0)),
        Some("00:00:00 01-Jan-1970".to_string())
    );
    assert_eq!(
        human_readable_system_time(&at(0, 0), Some(-3600)),
        Some("23:00:00 31-Dec-1969".to_string())
    );
}

#[test]
fn local_time_is_what_the_machine_zone_gives() {
    for secs in [0i64, 86_399, 1_700_000_000, -1_000_000, 4_102_444_800] {
        let local = DateTime::from_timestamp(secs, 0).unwrap().with_timezone(&Local);
        let offset = local.offset().local_minus_utc();
        let expected = local.format("%H:%M:%S %d-%b-%Y").to_string();
        assert_eq!(human_readable_system_time(&at(secs, 0), Some(offset)), Some(expected));
    }
}

#[test]
fn instants_counted_from_the_epoch() {
    let after = Timestamp::after_epoch(5, 7).unwrap();
    assert_eq!((after.secs(), after.subsec_nanos()), (5, 7));
    let before = Timestamp::before_epoch(5, 7).unwrap();
    assert_eq!((before.secs(), before.subsec_nanos()), (-6, 999_999_993));
    let whole = Timestamp::before_epoch(5, 0).unwrap();
    assert_eq!((whole.secs(), whole.subsec_nanos()), (-5, 0));
    let first = Timestamp::before_epoch(i64::MAX as u64, 1).unwrap();
    assert_eq!((first.secs(), first.subsec_nanos()), (i64::MIN, 999_999_999));
    assert!(Timestamp::after_epoch(i64::MAX as u64 + 1, 0).is_none());
    assert!(Timestamp::before_epoch(i64::MAX as u64 + 1, 0).is_none());
    assert!(Timestamp::after_epoch(0, 1_000_000_000).is_none());
    assert!(Timestamp::before_epoch(0, 1_000_000_000).is_none());
    assert_eq!(after.seconds_since(&before), Some(10));
}

#[test]
fn every_offset_of_less_than_a_day_has_a_text() {
    assert_eq!(time_text_at(&at(0, 0), 86_399), Some("23:59:59 01-Jan-1970".to_string()));
    assert_eq!(time_text_at(&at(0, 0), -86_399), Some("00:00:01 31-Dec-1969".to_string()));
    assert_eq!(time_text_at(&at(0, 0), i32::MAX), None);
    assert_eq!(time_text_at(&at(0, 0), i32::MIN), None);
}

#[test]
fn the_first_and_the_last_date_have_a_text_at_every_offset() {
    let first = DateTime::<chrono::Utc>::MIN_UTC.timestamp();
    let last = DateTime::<chrono::Utc>::MAX_UTC.timestamp();
    for offset in [-86_399, -3600, 0, 3600, 86_399] {
        assert!(time_text_at(&at(first, 0), offset).is_some());
        assert!(time_text_at(&at(last, 999_999_999), offset).is_some());
        assert!(time_text_at(&at(first - 1, 0), offset).is_none());
        assert!(time_text_at(&at(last + 1, 0), offset).is_none());
    }
}

#[test]
fn there_is_a_text_exactly_where_the_instant_has_a_date_and_the_zone_an_offset() {
    let first = DateTime::<chrono::Utc>::MIN_UTC.timestamp();
    let last = DateTime::<chrono::Utc>::MAX_UTC.timestamp();
    for secs in [i64::MIN, first - 1, first, -1, 0, 1_700_000_000, last, last + 1, i64::MAX] {
        let t = at(secs, 0);
        assert_eq!(
            human_readable_system_time(&t, Some(3600)).is_some(),
            time_text_at(&t, 0).is_some(),
            "at {}",
            secs
        );
        assert_eq!(
            human_readable_system_time(&t, Some(-86_399)).is_some(),
            DateTime::from_timestamp(secs, 0).is_some(),
            "at {}",
            secs
        );
        assert!(human_readable_system_time(&t, None).is_none());
    }
}

#[test]
fn first_and_last_second_with_a_date_are_those_of_the_calendar() {
    assert_eq!(FIRST_SECOND_WITH_DATE, DateTime::<chrono::Utc>::MIN_UTC.timestamp());
    assert_eq!(LAST_SECOND_WITH_DATE, DateTime::<chrono::Utc>::MAX_UTC.timestamp());
    assert_eq!(FIRST_SECOND_WITH_DATE, -8_334_601_228_800);
    assert_eq!(LAST_SECOND_WITH_DATE, 8_210_266_876_799);
    assert_eq!(
        time_text_at(&at(FIRST_SECOND_WITH_DATE, 0), 0),
        Some("00:00:00 01-Jan--262143".to_string())
    );
    assert_eq!(
        time_text_at(&at(LAST_SECOND_WITH_DATE, 999_999_999), 0),
        Some("23:59:59 31-Dec-+262142".to_string())
    );
    let zone = Some(7200);
    assert!(human_readable_system_time(&at(FIRST_SECOND_WITH_DATE, 0), zone).is_some());
    assert!(human_readable_system_time(&at(LAST_SECOND_WITH_DATE, 999_999_999), zone).is_some());
    assert!(human_readable_system_time(&at(FIRST_SECOND_WITH_DATE - 1, 999_999_999), zone).is_none());
    assert!(human_readable_system_time(&at(LAST_SECOND_WITH_DATE + 1, 0), zone).is_none());
}

#[test]
fn every_instant_up_to_now_has_a_relative_time() {
    let now = at(1_700_000_000, 0);
    for secs in [i64::MIN, FIRST_SECOND_WITH_DATE - 1, -1, 0, 1_699_999_999, 1_700_000_000] {
        assert!(get_relative_time(&now, &at(secs, 0)).is_ok(), "at {}", secs);
    }
    assert!(get_relative_time(&at(i64::MAX, 999_999_999), &at(i64::MIN, 0)).is_ok());
}
