//! Points in time, and how Twitch writes them down.
use vstd::prelude::*;
use vstd::slice::slice_subrange;
use vstd::string::StringExecFns;

use crate::text::{contains, has_match, matches_at, to_chars, to_text};
use crate::text_lemmas::lemma_absent;

verus! {

/// The first second that can be represented, counted from 1970-01-01 00:00:00 UTC.
pub const MIN_TIMESTAMP: i64 = -8_334_601_228_800;

/// The last second that can be represented, counted from 1970-01-01 00:00:00 UTC.
pub const MAX_TIMESTAMP: i64 = 8_210_266_876_799;

/// The number of nanoseconds in a second.
pub const NANOS_PER_SECOND: u32 = 1_000_000_000;

/// A number of seconds and a number of nanoseconds.
pub type Instant = (i64, u32);

/// Whether `instant` is a point in time: seconds since 1970-01-01 00:00:00 UTC and nanoseconds
/// within the second. In a leap second, the last one of a minute, the nanoseconds run on.
pub open spec fn is_instant(instant: Instant) -> bool {
    &&& MIN_TIMESTAMP <= instant.0 <= MAX_TIMESTAMP
    &&& instant.1 < 2 * NANOS_PER_SECOND
    &&& instant.1 >= NANOS_PER_SECOND ==> instant.0 % 60 == 59
}

/// The point in time that `chrono::DateTime::parse_from_str` reads in `text` by the format
/// `format`.
pub uninterp spec fn chrono_parsed(text: Seq<char>, format: Seq<char>) -> Option<(i64, u32)>;

/// The year of a week, as weeks are counted by ISO 8601, that `chrono::format::parse` finds in
/// `text` by the format `format`, if the text has the format.
pub uninterp spec fn chrono_week_year(text: Seq<char>, format: Seq<char>) -> Option<i32>;

/// Finds the year of a week with `chrono::format::parse`, which takes a text apart by a format, and
/// `chrono::format::Parsed::isoyear`. The result is a function of the text and the format alone.
#[verifier::external_body]
fn week_year_with_chrono(text: &str, format: &str) -> (year: Option<i32>)
    ensures
        year == chrono_week_year(text@, format@),
{
    let mut parsed = chrono::format::Parsed::new();
    let items = chrono::format::StrftimeItems::new(format);
    match chrono::format::parse(&mut parsed, text, items) {
        Ok(()) => parsed.isoyear(),
        Err(_) => None,
    }
}

/// Whether `chrono::DateTime::parse_from_str` is certain to return. It may panic where the format
/// asks for the year of a week and the text gives the smallest `i32` as that year: for the first
/// day of its first week chrono computes the year before, which overflows. It reads a time in no
/// text that gives that year.
pub open spec fn chrono_returns(text: Seq<char>, format: Seq<char>) -> bool {
    !contains(format, "G"@) || chrono_week_year(text, format) != Some(i32::MIN)
}

/// Reads a point in time with `chrono::DateTime::parse_from_str`. The result is a function of
/// the text and the format alone. What the formats mean is left to chrono; where it reads
/// something, that is a point in time that it can represent.
#[verifier::external_body]
fn parse_with_chrono(text: &str, format: &str) -> (instant: Option<(i64, u32)>)
    requires
        chrono_returns(text@, format@),
    ensures
        instant == chrono_parsed(text@, format@),
        instant matches Some(instant) ==> is_instant(instant),
{
    match chrono::DateTime::parse_from_str(text, format) {
        Ok(time) => {
            let time = time.with_timezone(&chrono::Utc);
            Some((time.timestamp(), time.timestamp_subsec_nanos()))
        },
        Err(_) => None,
    }
}

/// How `chrono::DateTime<Utc>` shows the point in time with these seconds and nanoseconds.
pub uninterp spec fn chrono_shown(seconds: i64, nanos: u32) -> Seq<char>;

/// Shows a point in time with the `Display` of `chrono::DateTime<Utc>`. The text is a function of
/// the point in time alone.
#[verifier::external_body]
fn show_with_chrono(seconds: i64, nanos: u32) -> (text: String)
    requires
        is_instant((seconds, nanos)),
    ensures
        text@ == chrono_shown(seconds, nanos),
{
    chrono::DateTime::from_timestamp(seconds, nanos).unwrap().to_string()
}

/// The nanoseconds from the point in time `from` to the point in time `to`. A leap second counts
/// if it belongs to one of the two, and lies before the time of day of the other.
pub open spec fn nanos_between(from: Instant, to: Instant) -> int {
    let leap: int = if to.0 % 86_400 > from.0 % 86_400 && from.1 >= NANOS_PER_SECOND {
        1
    } else if to.0 % 86_400 < from.0 % 86_400 && to.1 >= NANOS_PER_SECOND {
        -1
    } else {
        0
    };
    (to.0 - from.0 + leap) * NANOS_PER_SECOND + (to.1 - from.1)
}

/// The quotient of `a` and the positive `b`, rounded toward zero.
pub open spec fn truncated_quotient(a: int, b: int) -> int {
    if a >= 0 {
        a / b
    } else {
        -((-a) / b)
    }
}

/// The whole seconds from the point in time `from` to the point in time `to`, negative where
/// `to` comes first.
pub open spec fn seconds_between(from: Instant, to: Instant) -> int {
    truncated_quotient(nanos_between(from, to), NANOS_PER_SECOND as int)
}

/// The whole seconds in the difference of two `chrono::DateTime<Utc>`, as
/// `chrono::TimeDelta::num_seconds` counts them.
#[verifier::external_body]
fn subtract_with_chrono(to: (i64, u32), from: (i64, u32)) -> (seconds: i64)
    requires
        is_instant(to),
        is_instant(from),
    ensures
        seconds == seconds_between(from, to),
{
    let to = chrono::DateTime::from_timestamp(to.0, to.1).unwrap();
    let from = chrono::DateTime::from_timestamp(from.0, from.1).unwrap();
    (to - from).num_seconds()
}

/// Whether `instant` is a point in time that a clock can show: none before 1970, and none within a
/// leap second.
pub open spec fn is_clock_time(instant: Instant) -> bool {
    &&& is_instant(instant)
    &&& 0 <= instant.0
    &&& instant.1 < NANOS_PER_SECOND
}

/// The current time, from `chrono::Utc::now`: the time that has passed since 1970 by the clock of
/// the machine, in seconds and nanoseconds. Which point in time it is rests on that clock, and is
/// left unsaid. chrono panics where the clock stands before 1970, which no argument can rule out.
#[verifier::external_body]
fn now_with_chrono() -> (instant: (i64, u32))
    ensures
        is_clock_time(instant),
{
    let now = chrono::Utc::now();
    (now.timestamp(), now.timestamp_subsec_nanos())
}

/// Whether `instant` was returned by a call that read the clock.
pub closed spec fn shown_by_clock(instant: Instant) -> bool {
    call_ensures(now_with_chrono, (), instant)
}

/// A point in time, in UTC.
#[derive(Debug, Clone, Copy)]
pub struct UtcDateTime {
    seconds: i64,
    nanos: u32,
}

impl View for UtcDateTime {
    type V = Instant;

    closed spec fn view(&self) -> Instant {
        (self.seconds, self.nanos)
    }
}

impl UtcDateTime {
    /// Every value is a point in time.
    #[verifier::type_invariant]
    pub open spec fn well_formed(self) -> bool {
        is_instant(self@)
    }

    /// The current time, by the clock of the machine.
    pub fn now() -> (time: UtcDateTime)
        ensures
            is_clock_time(time@),
            shown_by_clock(time@),
    {
        let (seconds, nanos) = now_with_chrono();
        UtcDateTime { seconds, nanos }
    }

    /// The seconds since 1970-01-01 00:00:00 UTC.
    pub fn timestamp(&self) -> (seconds: i64)
        ensures
            seconds == self@.0,
    {
        self.seconds
    }

    /// The nanoseconds within the second, which exceed a second in a leap second.
    pub fn timestamp_subsec_nanos(&self) -> (nanos: u32)
        ensures
            nanos == self@.1,
    {
        self.nanos
    }

    /// The point in time as text.
    pub fn to_string(&self) -> (text: String)
        ensures
            text@ == chrono_shown(self@.0, self@.1),
    {
        proof {
            use_type_invariant(self);
        }
        show_with_chrono(self.seconds, self.nanos)
    }
}

/// The format in which Twitch writes a point in time, once it has an offset.
pub const TWITCH_TIME_FORMAT: &'static str = "%Y-%m-%dT%H:%M:%S%z";

/// The offset of UTC from itself.
pub const UTC_OFFSET: &'static str = "+00:00";

/// A time with an offset: a final `Z` is turned into one, and a time without a plus sign gets
/// one.
pub open spec fn with_offset(time: Seq<char>) -> Seq<char> {
    if time.len() > 0 && time.last() == 'Z' {
        time.drop_last() + UTC_OFFSET@
    } else if !contains(time, "+"@) {
        time + UTC_OFFSET@
    } else {
        time
    }
}

/// The point in time that `time` denotes by the format `format`. No time denotes one in the year
/// that chrono cannot be asked about.
pub open spec fn time_read(time: Seq<char>, format: Seq<char>) -> Option<Instant> {
    if chrono_returns(with_offset(time), format) {
        chrono_parsed(with_offset(time), format)
    } else {
        None
    }
}

/// Gives a time an offset.
pub fn add_offset(time: &str) -> (result: String)
    ensures
        result@ == with_offset(time@),
{
    proof {
        reveal_strlit("+");
    }
    let chars = to_chars(time);
    let n: usize = chars.len();
    if n > 0 && chars[n - 1] == 'Z' {
        let mut result = to_text(slice_subrange(&chars, 0, n - 1));
        assert(result@ == time@.drop_last());
        result.append(UTC_OFFSET);
        return result;
    }
    let mut result = String::from(time);
    if !has_match(&chars, &to_chars("+")) {
        result.append(UTC_OFFSET);
    }
    result
}

/// The format of Twitch does not ask for the year of a week.
proof fn lemma_twitch_time_format(text: Seq<char>)
    ensures
        chrono_returns(text, TWITCH_TIME_FORMAT@),
{
    reveal_strlit("%Y-%m-%dT%H:%M:%S%z");
    reveal_strlit("G");
    lemma_absent(TWITCH_TIME_FORMAT@, "G"@, ""@);
}

/// Whether chrono is certain to return.
fn can_ask_chrono(text: &str, format: &str) -> (can: bool)
    ensures
        can == chrono_returns(text@, format@),
{
    proof {
        reveal_strlit("G");
    }
    !has_match(&to_chars(format), &to_chars("G")) || match week_year_with_chrono(text, format) {
        Some(year) => year != i32::MIN,
        None => true,
    }
}

/// Reads a time that Twitch wrote.
pub fn convert_twitch_time(time: &str) -> (result: UtcDateTime)
    requires
        time_read(time@, TWITCH_TIME_FORMAT@) is Some,
    ensures
        time_read(time@, TWITCH_TIME_FORMAT@) == Some(result@),
        is_instant(result@),
{
    convert_twitch_time_info(String::from(time), TWITCH_TIME_FORMAT)
}

/// Reads a time by the format `fmt`.
pub fn convert_twitch_time_info(res: String, fmt: &str) -> (result: UtcDateTime)
    requires
        time_read(res@, fmt@) is Some,
    ensures
        time_read(res@, fmt@) == Some(result@),
        is_instant(result@),
{
    let (seconds, nanos) = parse_with_chrono(add_offset(res.as_str()).as_str(), fmt).unwrap();
    UtcDateTime { seconds, nanos }
}

/// Reads a time that Twitch wrote, where it can be read.
pub fn try_convert_twitch_time(time: &str) -> (result: Option<UtcDateTime>)
    ensures
        match result {
            Some(result) => time_read(time@, TWITCH_TIME_FORMAT@) == Some(result@) && is_instant(
                result@,
            ),
            None => time_read(time@, TWITCH_TIME_FORMAT@) is None,
        },
{
    proof {
        lemma_twitch_time_format(with_offset(time@));
    }
    match parse_with_chrono(add_offset(time).as_str(), TWITCH_TIME_FORMAT) {
        Some(_) => Some(convert_twitch_time(time)),
        None => None,
    }
}

/// Reads a time by the format `fmt`, where it can be read.
pub fn try_convert_twitch_time_info(res: String, fmt: &str) -> (result: Option<UtcDateTime>)
    ensures
        match result {
            Some(result) => time_read(res@, fmt@) == Some(result@) && is_instant(result@),
            None => time_read(res@, fmt@) is None,
        },
{
    let text = add_offset(res.as_str());
    if !can_ask_chrono(text.as_str(), fmt) {
        return None;
    }
    match parse_with_chrono(text.as_str(), fmt) {
        Some(_) => Some(convert_twitch_time_info(res, fmt)),
        None => None,
    }
}

/// Reads the text of a Twitch timestamp.
pub fn convert_twitch_timestamp(time: String) -> (result: UtcDateTime)
    requires
        time_read(time@, TWITCH_TIME_FORMAT@) is Some,
    ensures
        time_read(time@, TWITCH_TIME_FORMAT@) == Some(result@),
        is_instant(result@),
{
    convert_twitch_time(time.as_str())
}

/// Reads the text of a Twitch timestamp, where it can be read.
pub fn try_convert_twitch_timestamp(time: String) -> (result: Option<UtcDateTime>)
    ensures
        match result {
            Some(result) => time_read(time@, TWITCH_TIME_FORMAT@) == Some(result@) && is_instant(
                result@,
            ),
            None => time_read(time@, TWITCH_TIME_FORMAT@) is None,
        },
{
    proof {
        lemma_twitch_time_format(with_offset(time@));
    }
    match parse_with_chrono(add_offset(time.as_str()).as_str(), TWITCH_TIME_FORMAT) {
        Some(_) => Some(convert_twitch_timestamp(time)),
        None => None,
    }
}

/// The hours in a number of seconds that has been turned into an unsigned one: a negative number
/// becomes a very large one.
pub open spec fn unsigned_hours(seconds: int) -> int {
    if seconds >= 0 {
        seconds / 3600
    } else {
        (seconds + 0x1_0000_0000_0000_0000) / 3600
    }
}

/// The hours that have passed at the point in time `now` since the point in time `time`. Where
/// `time` is later by a second or more, they are more than any age.
pub fn hours_since(time: &UtcDateTime, now: &UtcDateTime) -> (hours: u64)
    ensures
        hours == unsigned_hours(seconds_between(time@, now@)),
{
    proof {
        use_type_invariant(time);
        use_type_invariant(now);
    }
    let seconds: i64 = subtract_with_chrono((now.seconds, now.nanos), (time.seconds, time.nanos));
    assert(seconds < 0 ==> #[verifier::truncate] (seconds as u64) == seconds
        + 0x1_0000_0000_0000_0000) by (bit_vector);
    #[verifier::truncate]
    let unsigned: u64 = seconds as u64;
    unsigned / 3600
}

/// Giving a time an offset twice is giving it one once.
pub proof fn law_offset_is_added_once(time: Seq<char>)
    ensures
        with_offset(with_offset(time)) == with_offset(time),
{
    reveal_strlit("+00:00");
    reveal_strlit("+");
    let result = with_offset(time);
    if result != time {
        let n = result.len() - 6;
        assert(result.subrange(n, n + 1) == "+"@);
        assert(matches_at(result, "+"@, n));
    }
}

/// A time with the mark of UTC, one with the offset of UTC and one with neither are the same.
pub proof fn law_times_are_utc_unless_they_say_otherwise(time: Seq<char>, format: Seq<char>)
    requires
        !contains(time, "+"@),
        time.len() > 0 ==> time.last() != 'Z',
    ensures
        with_offset(time.push('Z')) == time + UTC_OFFSET@,
        with_offset(time + UTC_OFFSET@) == time + UTC_OFFSET@,
        with_offset(time) == time + UTC_OFFSET@,
        time_read(time.push('Z'), format) == time_read(time, format),
        time_read(time + UTC_OFFSET@, format) == time_read(time, format),
{
    assert(time.push('Z').drop_last() == time);
    law_offset_is_added_once(time);
}

/// What the clock shows is a point in time, neither before 1970 nor within a leap second.
pub proof fn law_clock_shows_a_clock_time(instant: Instant)
    requires
        shown_by_clock(instant),
    ensures
        MIN_TIMESTAMP <= instant.0 <= MAX_TIMESTAMP,
        0 <= instant.0,
        instant.1 < 1_000_000_000,
{
}

/// A final `Z` gives way to the offset of UTC, whatever stands before it.
pub proof fn law_mark_of_utc_becomes_an_offset(time: Seq<char>)
    ensures
        with_offset(time.push('Z')) == time + "+00:00"@,
{
    assert(time.push('Z').drop_last() =~= time);
}

/// A time that has a plus sign and no final `Z` stays as it is; one that has neither gets the
/// offset of UTC.
pub proof fn law_plus_sign_stands_for_an_offset(time: Seq<char>)
    requires
        time.len() > 0 ==> time.last() != 'Z',
    ensures
        time.contains('+') ==> with_offset(time) == time,
        !time.contains('+') ==> with_offset(time) == time + "+00:00"@,
{
    reveal_strlit("+");
    if time.contains('+') {
        let i = choose|i: int| 0 <= i < time.len() && time[i] == '+';
        assert(time.subrange(i, i + 1) =~= "+"@);
        assert(matches_at(time, "+"@, i));
    } else {
        lemma_absent(time, "+"@, ""@);
    }
}

/// A time is what chrono reads in it once it has an offset. Only a format with a `G` can ask for
/// the year that chrono cannot be asked about, and a text that gives it is no time.
pub proof fn law_time_is_what_chrono_reads(time: Seq<char>, format: Seq<char>)
    ensures
        !format.contains('G') ==> time_read(time, format) == chrono_parsed(
            with_offset(time),
            format,
        ),
        format.contains('G') && chrono_week_year(with_offset(time), format) != Some(
            -2_147_483_648i32,
        ) ==> time_read(time, format) == chrono_parsed(with_offset(time), format),
        format.contains('G') && chrono_week_year(with_offset(time), format) == Some(
            -2_147_483_648i32,
        ) ==> time_read(time, format) is None,
{
    reveal_strlit("G");
    if format.contains('G') {
        let i = choose|i: int| 0 <= i < format.len() && format[i] == 'G';
        assert(format.subrange(i, i + 1) =~= "G"@);
        assert(matches_at(format, "G"@, i));
    } else {
        lemma_absent(format, "G"@, ""@);
    }
}

/// Apart from leap seconds, the time between two points in time is the difference of what has
/// passed since 1970.
pub proof fn law_time_between_is_the_difference(from: Instant, to: Instant)
    requires
        from.1 < 1_000_000_000,
        to.1 < 1_000_000_000,
    ensures
        nanos_between(from, to) == (to.0 * 1_000_000_000 + to.1) - (from.0 * 1_000_000_000
            + from.1),
{
}

/// Counting back gives the same time with the other sign.
pub proof fn law_time_between_can_be_counted_back(from: Instant, to: Instant)
    ensures
        nanos_between(to, from) == -nanos_between(from, to),
        seconds_between(to, from) == -seconds_between(from, to),
{
    let forth = nanos_between(from, to);
    assert(nanos_between(to, from) == -forth) by {
        assert(to.0 - from.0 == -(from.0 - to.0));
    }
}

/// A leap second is counted as the second before it was, with a second more; where the other point
/// in time has a later time of day, the leap second lies between them and is taken off again.
pub proof fn law_leap_second_is_a_second_more(seconds: i64, nanos: u32, to: Instant)
    requires
        nanos < 1_000_000_000,
        to.1 < 1_000_000_000,
    ensures
        nanos_between((seconds, (nanos + 1_000_000_000) as u32), to) == nanos_between(
            (seconds, nanos),
            to,
        ) - (if to.0 % 86_400 > seconds % 86_400 {
            0int
        } else {
            1_000_000_000int
        }),
{
}

/// Between two leap seconds the time is that between the seconds before them, and a second more
/// where the later time of day is that of the end, or less where it is that of the start.
pub proof fn law_two_leap_seconds(from: i64, to: i64, a: u32, b: u32)
    requires
        a < 1_000_000_000,
        b < 1_000_000_000,
    ensures
        nanos_between(
            (from, (a + 1_000_000_000) as u32),
            (to, (b + 1_000_000_000) as u32),
        ) == nanos_between((from, a), (to, b)) + (if to % 86_400 > from % 86_400 {
            1_000_000_000int
        } else if to % 86_400 < from % 86_400 {
            -1_000_000_000int
        } else {
            0int
        }),
{
}

/// The whole seconds of a time leave less than a second, and none is counted that has not passed.
pub proof fn law_seconds_are_counted_toward_zero(from: Instant, to: Instant)
    ensures
        ({
            let nanos = nanos_between(from, to);
            let seconds = seconds_between(from, to);
            &&& nanos >= 0 ==> seconds * 1_000_000_000 <= nanos < (seconds + 1) * 1_000_000_000
            &&& nanos <= 0 ==> (seconds - 1) * 1_000_000_000 < nanos <= seconds * 1_000_000_000
        }),
{
}

/// A quotient that is rounded toward zero leaves a remainder smaller than the divisor, with the
/// sign of the dividend.
pub proof fn law_quotient_is_rounded_toward_zero(a: int, b: int)
    requires
        b > 0,
    ensures
        ({
            let q = truncated_quotient(a, b);
            &&& a >= 0 ==> 0 <= a - q * b < b
            &&& a <= 0 ==> -b < a - q * b <= 0
        }),
{
    if a >= 0 {
        let q = a / b;
        assert(0 <= a - q * b < b) by (nonlinear_arith)
            requires
                b > 0,
                q == a / b,
        ;
    } else {
        let c = -a;
        let q = c / b;
        assert(0 <= c - q * b < b) by (nonlinear_arith)
            requires
                b > 0,
                q == c / b,
        ;
        assert((-q) * b == -(q * b)) by (nonlinear_arith);
    }
    assert(0 * b == 0) by (nonlinear_arith);
}

/// An hour has 3600 seconds. A negative number of seconds counts as if it had been subtracted from
/// the number of values of a `u64`.
pub proof fn law_hours_are_counted_down(seconds: int)
    requires
        -0x1_0000_0000_0000_0000 <= seconds,
    ensures
        seconds >= 0 ==> 3600 * unsigned_hours(seconds) <= seconds < 3600 * (unsigned_hours(
            seconds,
        ) + 1),
        seconds < 0 ==> 3600 * unsigned_hours(seconds) <= seconds + 18_446_744_073_709_551_616
            < 3600 * (unsigned_hours(seconds) + 1),
{
}

/// The format in which Twitch writes a point in time, and the offset of UTC, are these.
pub proof fn law_format_and_offset()
    ensures
        TWITCH_TIME_FORMAT@ == "%Y-%m-%dT%H:%M:%S%z"@,
        UTC_OFFSET@ == "+00:00"@,
{
}

} // verus!
