use twitch_data::time::{add_offset, convert_twitch_time, convert_twitch_time_info};
use twitch_data::time::{convert_twitch_timestamp, hours_since, try_convert_twitch_time};
use twitch_data::time::{try_convert_twitch_time_info, try_convert_twitch_timestamp, UtcDateTime};
use twitch_data::time::{MAX_TIMESTAMP, MIN_TIMESTAMP, TWITCH_TIME_FORMAT};

fn at(time: &str) -> UtcDateTime {
    try_convert_twitch_time(time).unwrap()
}

fn fraction(time: &str) -> UtcDateTime {
    try_convert_twitch_time_info(time.to_string(), "%Y-%m-%dT%H:%M:%S%.f%z").unwrap()
}

#[test]
fn test_convert_twitch_time() {
    let time = "2021-01-01T00:00:00Z";
    let time = convert_twitch_time(time);
    assert_eq!(time.to_string(), "2021-01-01 00:00:00 UTC");
}

#[test]
fn test_convert_twitch_time_info() {
    let time = "2021-01-01T00:00:00+00:00";
    let time = convert_twitch_time_info(time.to_string(), "%Y-%m-%dT%H:%M:%S%z");
    assert_eq!(time.to_string(), "2021-01-01 00:00:00 UTC");
    let time = "2021-01-01T00:00:00Z";
    let time = convert_twitch_time_info(time.to_string(), "%Y-%m-%dT%H:%M:%S%z");
    assert_eq!(time.to_string(), "2021-01-01 00:00:00 UTC");
}

#[test]
fn timestamp_text_is_read() {
    let time = convert_twitch_timestamp("2021-01-01T00:00:01Z".to_string());
    assert_eq!(time.timestamp(), 1_609_459_201);
    assert_eq!(time.timestamp_subsec_nanos(), 0);
    let time = try_convert_twitch_timestamp("2021-01-01T00:00:01Z".to_string()).unwrap();
    assert_eq!(time.timestamp(), 1_609_459_201);
    assert!(try_convert_twitch_timestamp("yesterday".to_string()).is_none());
}

#[test]
fn offset_is_subtracted() {
    let time = at("2021-01-01T02:30:00+02:30");
    assert_eq!(time.timestamp(), 1_609_459_200);
    assert_eq!(time.to_string(), "2021-01-01 00:00:00 UTC");
}

#[test]
fn time_without_offset_is_utc() {
    assert_eq!(at("2021-01-01T00:00:00").timestamp(), 1_609_459_200);
    assert_eq!(at("2021-01-01T00:00:00Z").timestamp(), 1_609_459_200);
    assert_eq!(at("2021-01-01T00:00:00+00:00").timestamp(), 1_609_459_200);
}

#[test]
fn negative_offset_is_not_seen_as_one() {
    assert_eq!(add_offset("2021-01-01T00:00:00-01:00"), "2021-01-01T00:00:00-01:00+00:00");
    assert!(try_convert_twitch_time("2021-01-01T00:00:00-01:00").is_none());
}

#[test]
fn offset_is_added_once() {
    for time in ["", "Z", "a", "aZ", "a+b", "a+bZ", "+"] {
        let once = add_offset(time);
        assert_eq!(add_offset(&once), once);
    }
    assert_eq!(add_offset(""), "+00:00");
    assert_eq!(add_offset("Z"), "+00:00");
    assert_eq!(add_offset("ZZ"), "Z+00:00");
    assert_eq!(add_offset("a+b"), "a+b");
    assert_eq!(add_offset("a+bZ"), "a+b+00:00");
}

#[test]
fn unreadable_time_is_refused() {
    for time in ["", "Z", "2021-01-01", "2021-02-30T00:00:00Z", "2021-01-01T24:00:00Z"] {
        assert!(try_convert_twitch_time(time).is_none(), "{}", time);
    }
    assert!(try_convert_twitch_time_info("2021-01-01Z".to_string(), TWITCH_TIME_FORMAT).is_none());
}

#[test]
fn year_of_a_week_is_read() {
    let format = "%G-W%V-%uT%H:%M:%S%z";
    let read = |time: &str| try_convert_twitch_time_info(time.to_string(), format);
    assert_eq!(read("2021-W01-1T00:00:00Z").unwrap().to_string(), "2021-01-04 00:00:00 UTC");
    assert!(read("-2147483647-W01-1T00:00:00Z").is_none());
}

#[test]
fn smallest_year_of_a_week_is_refused() {
    for format in ["%G-W%V-%uT%H:%M:%S%z", "%-G-W%V-%uT%H:%M:%S%z", "%_G-W%V-%uT%H:%M:%S%z"] {
        for time in [
            "-2147483648-W01-1T00:00:00Z",
            "-2147483648-W01-2T00:00:00Z",
            "-002147483648-W01-1T00:00:00+00:00",
        ] {
            assert!(try_convert_twitch_time_info(time.to_string(), format).is_none());
        }
    }
}

#[test]
fn digits_of_the_smallest_year_may_mean_something_else() {
    let read = |time: &str, format: &str| try_convert_twitch_time_info(time.to_string(), format);
    let time = read("2147483648G+00:00", "%sG%z").unwrap();
    assert_eq!(time.to_string(), "2038-01-19 03:14:08 UTC");
    let time = read("2021-2147483648-W01-1T00:00:00Z", "%G-2147483648-W%V-%uT%H:%M:%S%z").unwrap();
    assert_eq!(time.to_string(), "2021-01-04 00:00:00 UTC");
    let time = read("2021-W01-1T00:00:00.2147483648Z", "%G-W%V-%uT%H:%M:%S%.f%z").unwrap();
    assert_eq!(time.timestamp_subsec_nanos(), 214_748_364);
}

#[test]
fn fraction_of_a_second_is_kept() {
    let time = fraction("2021-01-01T00:00:00.25Z");
    assert_eq!(time.timestamp(), 1_609_459_200);
    assert_eq!(time.timestamp_subsec_nanos(), 250_000_000);
    assert_eq!(time.to_string(), "2021-01-01 00:00:00.250 UTC");
}

#[test]
fn leap_second_is_read_and_shown() {
    let time = at("2016-12-31T23:59:60Z");
    assert_eq!(time.timestamp(), 1_483_228_799);
    assert_eq!(time.timestamp_subsec_nanos(), 1_000_000_000);
    assert_eq!(time.to_string(), "2016-12-31 23:59:60 UTC");
}

#[test]
fn bounds_are_those_of_chrono() {
    assert_eq!(MIN_TIMESTAMP, chrono::DateTime::<chrono::Utc>::MIN_UTC.timestamp());
    assert_eq!(MAX_TIMESTAMP, chrono::DateTime::<chrono::Utc>::MAX_UTC.timestamp());
    assert_eq!(at("-262143-01-01T00:00:00Z").timestamp(), MIN_TIMESTAMP);
    assert_eq!(at("+262142-12-31T23:59:59+00:00").timestamp(), MAX_TIMESTAMP);
    let all = hours_since(&at("-262143-01-01T00:00:00Z"), &at("+262142-12-31T23:59:59+00:00"));
    assert_eq!(all, 4_595_796_695);
}

#[test]
fn now_is_the_current_time() {
    let before = chrono::Utc::now().timestamp();
    let now = UtcDateTime::now();
    let after = chrono::Utc::now().timestamp();
    assert!(before <= now.timestamp() && now.timestamp() <= after);
    assert!(now.timestamp() >= 0);
    assert!(now.timestamp_subsec_nanos() < 1_000_000_000);
}

#[test]
fn hours_are_counted_down_to_whole_ones() {
    let start = at("2021-01-01T00:00:00Z");
    assert_eq!(hours_since(&start, &start), 0);
    assert_eq!(hours_since(&start, &at("2021-01-01T00:59:59Z")), 0);
    assert_eq!(hours_since(&start, &at("2021-01-01T01:00:00Z")), 1);
    assert_eq!(hours_since(&start, &at("2021-01-02T01:59:59Z")), 25);
}

#[test]
fn fractions_are_left_out_of_hours() {
    let start = fraction("2021-01-01T00:00:00.75Z");
    assert_eq!(hours_since(&start, &fraction("2021-01-01T01:00:00.5Z")), 0);
    assert_eq!(hours_since(&start, &fraction("2021-01-01T01:00:00.75Z")), 1);
    assert_eq!(hours_since(&start, &fraction("2021-01-01T00:00:00.5Z")), 0);
}

#[test]
fn hours_since_a_later_time_are_huge() {
    let start = at("2021-01-01T00:00:00Z");
    assert_eq!(hours_since(&at("2021-01-01T00:00:01Z"), &start), 5_124_095_576_030_431);
    assert_eq!(hours_since(&at("2021-01-01T01:00:00Z"), &start), 5_124_095_576_030_430);
}

#[test]
fn leap_second_counts_on_its_own_day() {
    let leap = at("2016-06-30T12:34:60Z");
    assert_eq!(hours_since(&leap, &at("2016-06-30T13:34:58Z")), 0);
    assert_eq!(hours_since(&leap, &at("2016-06-30T13:34:59Z")), 1);
    assert_eq!(hours_since(&at("2016-06-30T11:35:00Z"), &leap), 1);
    assert_eq!(hours_since(&at("2016-06-30T11:35:01Z"), &leap), 0);
}
