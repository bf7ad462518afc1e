use twitch_data::duration::{convert_twitch_duration, try_convert_twitch_duration};

fn seconds(duration: &str) -> Option<i64> {
    try_convert_twitch_duration(duration).map(|d| d.num_seconds())
}

#[test]
fn test_convert_twitch_duration() {
    let duration = "2h49m47s";
    println!("duration: {:?}", duration);
    let duration = convert_twitch_duration(duration);
    println!("duration: {:?}", duration);
    assert_eq!(duration.num_seconds(), 10187);
}

#[test]
fn milliseconds_of_a_duration() {
    assert_eq!(convert_twitch_duration("2h49m47s").num_milliseconds(), 10_187_000);
    assert_eq!(try_convert_twitch_duration("1s").unwrap().num_milliseconds(), 1000);
}

#[test]
fn missing_fields_are_zero() {
    assert_eq!(seconds("47s"), Some(47));
    assert_eq!(seconds("49m47s"), Some(2987));
    assert_eq!(seconds("0s"), Some(0));
    assert_eq!(seconds("12"), Some(12));
}

#[test]
fn hours_minutes_seconds() {
    assert_eq!(seconds("1h2m3s"), Some(3723));
    assert_eq!(seconds("001h002m003s"), Some(3723));
    assert_eq!(seconds("0h0m1s"), Some(1));
    assert_eq!(seconds("100h99m98s"), Some(366_038));
}

#[test]
fn only_the_last_three_fields_count() {
    assert_eq!(seconds("x:2h3m4s"), Some(7384));
    assert_eq!(seconds("1:2:3"), Some(3723));
}

#[test]
fn signs_are_read() {
    assert_eq!(seconds("-5s"), Some(-5));
    assert_eq!(seconds("+1m+2s"), Some(62));
    assert_eq!(seconds("1m-2s"), Some(58));
}

#[test]
fn unreadable_duration_is_refused() {
    for duration in ["", "s", "h", "1h", "1h2m", "1d2h3m4s", "1.5s", "-s", "+", " 1s", "1hm3s"] {
        assert_eq!(seconds(duration), None, "{}", duration);
    }
}

#[test]
fn duration_must_fit() {
    assert_eq!(seconds("9223372036854775s"), Some(9_223_372_036_854_775));
    assert_eq!(seconds("9223372036854776s"), None);
    assert_eq!(seconds("-9223372036854775s"), Some(-9_223_372_036_854_775));
    assert_eq!(seconds("-9223372036854776s"), None);
    assert_eq!(seconds("9223372036854775808s"), None);
    assert_eq!(seconds("-9223372036854775808s"), None);
    assert_eq!(seconds("2562047788015h12m55s"), Some(9_223_372_036_854_775));
    assert_eq!(seconds("2562047788015h12m56s"), None);
    assert_eq!(seconds("1m9223372036854775s"), None);
    assert_eq!(seconds("-1h1m9223372036854775s"), None);
}
