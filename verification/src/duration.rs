//! How long a video is, and how Twitch writes that down.
use vstd::prelude::*;

use crate::number::{decimal_value, is_digit, is_number, parse_i64, parsed_i64};
use crate::text::{pieces, replace, replaced, split, to_chars, views};
use crate::text_lemmas::{lemma_absent, lemma_one_character, lemma_replace_character};
use crate::text_lemmas::{lemma_replace_joined, lemma_replace_whole, lemma_split_joined};
use crate::time::truncated_quotient;

verus! {

/// The whole seconds in a number of milliseconds, from `chrono::TimeDelta::milliseconds` and
/// `chrono::TimeDelta::num_seconds`. They are counted toward zero.
#[verifier::external_body]
fn seconds_with_chrono(milliseconds: i64) -> (seconds: i64)
    requires
        milliseconds > i64::MIN,
    ensures
        seconds == truncated_quotient(milliseconds as int, 1000),
{
    chrono::TimeDelta::milliseconds(milliseconds).num_seconds()
}

/// A length of time in milliseconds.
#[derive(Debug, Clone, Copy)]
pub struct VideoDuration {
    milliseconds: i64,
}

impl View for VideoDuration {
    type V = int;

    closed spec fn view(&self) -> int {
        self.milliseconds as int
    }
}

impl VideoDuration {
    #[verifier::type_invariant]
    spec fn well_formed(self) -> bool {
        self.milliseconds > i64::MIN
    }

    /// The whole seconds of this length of time, counted toward zero.
    pub fn num_seconds(&self) -> (seconds: i64)
        ensures
            seconds == truncated_quotient(self@, 1000),
    {
        proof {
            use_type_invariant(self);
        }
        seconds_with_chrono(self.milliseconds)
    }

    /// The milliseconds of this length of time.
    pub fn num_milliseconds(&self) -> (milliseconds: i64)
        ensures
            milliseconds == self@,
    {
        self.milliseconds
    }
}

/// The fields of a duration such as `2h49m47s`: a colon takes the place of every `h` and `m`,
/// every `s` goes, and what is left is cut at the colons.
pub open spec fn duration_fields(duration: Seq<char>) -> Seq<Seq<char>> {
    split(replace(replace(replace(duration, "h"@, ":"@), "m"@, ":"@), "s"@, ""@), ":"@)
}

/// The number in the field that is the `n`th from the end, counted from zero. A field that is
/// missing counts as zero.
pub open spec fn field_value(fields: Seq<Seq<char>>, n: int) -> Option<int> {
    if n < fields.len() {
        parsed_i64(fields[fields.len() - 1 - n])
    } else {
        Some(0)
    }
}

/// Whether `n` is the value of an `i64`.
pub open spec fn fits(n: int) -> bool {
    i64::MIN <= n <= i64::MAX
}

/// Whether a duration of so many hours, minutes and seconds can be added up.
pub open spec fn adds_up(hours: int, minutes: int, seconds: int) -> bool {
    &&& fits(seconds * 1000)
    &&& fits(minutes * 60 * 1000)
    &&& fits(hours * 60 * 60 * 1000)
    &&& fits(seconds * 1000 + minutes * 60 * 1000)
    &&& i64::MIN < seconds * 1000 + minutes * 60 * 1000 + hours * 60 * 60 * 1000 <= i64::MAX
}

/// The milliseconds in a duration such as `2h49m47s`: the last three fields are the hours, the
/// minutes and the seconds.
pub open spec fn duration_read(duration: Seq<char>) -> Option<int> {
    let fields = duration_fields(duration);
    match (field_value(fields, 2), field_value(fields, 1), field_value(fields, 0)) {
        (Some(hours), Some(minutes), Some(seconds)) => if adds_up(hours, minutes, seconds) {
            Some(seconds * 1000 + minutes * 60 * 1000 + hours * 60 * 60 * 1000)
        } else {
            None
        },
        _ => None,
    }
}

/// The fields of a duration.
fn fields_of(duration: &str) -> (fields: Vec<Vec<char>>)
    ensures
        views(fields@) == duration_fields(duration@),
{
    proof {
        reveal_strlit("h");
        reveal_strlit("m");
        reveal_strlit("s");
        reveal_strlit(":");
    }
    let colon = to_chars(":");
    let text = replaced(&to_chars(duration), &to_chars("h"), &colon);
    let text = replaced(&text, &to_chars("m"), &colon);
    let text = replaced(&text, &to_chars("s"), &to_chars(""));
    pieces(&text, &colon)
}

/// The number in the field that is the `n`th from the end.
fn value_of_field(fields: &Vec<Vec<char>>, n: usize) -> (value: Option<i64>)
    ensures
        match value {
            Some(v) => field_value(views(fields@), n as int) == Some(v as int),
            None => field_value(views(fields@), n as int) is None,
        },
{
    assert(views(fields@).len() == fields@.len());
    if n < fields.len() {
        let i: usize = fields.len() - 1 - n;
        assert(views(fields@)[i as int] == fields@[i as int]@);
        parse_i64(&fields[i])
    } else {
        Some(0)
    }
}

/// Reads a duration such as `2h49m47s`.
pub fn convert_twitch_duration(duration: &str) -> (result: VideoDuration)
    requires
        duration_read(duration@) is Some,
    ensures
        duration_read(duration@) == Some(result@),
{
    let fields = fields_of(duration);
    let seconds: i64 = value_of_field(&fields, 0).unwrap();
    let minutes: i64 = value_of_field(&fields, 1).unwrap();
    let hours: i64 = value_of_field(&fields, 2).unwrap();
    assert(adds_up(hours as int, minutes as int, seconds as int));
    let milliseconds: i64 = seconds * 1000 + minutes * 60 * 1000 + hours * 60 * 60 * 1000;
    VideoDuration { milliseconds }
}

/// Reads a duration such as `2h49m47s`, where it can be read.
pub fn try_convert_twitch_duration(duration: &str) -> (result: Option<VideoDuration>)
    ensures
        match result {
            Some(result) => duration_read(duration@) == Some(result@),
            None => duration_read(duration@) is None,
        },
{
    let fields = fields_of(duration);
    match (value_of_field(&fields, 2), value_of_field(&fields, 1), value_of_field(&fields, 0)) {
        (Some(hours), Some(minutes), Some(seconds)) => {
            let h: i128 = hours as i128 * 60 * 60 * 1000;
            let m: i128 = minutes as i128 * 60 * 1000;
            let s: i128 = seconds as i128 * 1000;
            let min: i128 = i64::MIN as i128;
            let max: i128 = i64::MAX as i128;
            let each_fits = min <= h && h <= max && min <= m && m <= max && min <= s && s <= max;
            let sums_fit = min <= s + m && s + m <= max && min < s + m + h && s + m + h <= max;
            if each_fits && sums_fit {
                Some(convert_twitch_duration(duration))
            } else {
                None
            }
        },
        _ => None,
    }
}

/// Of digits and colons with an `s` at the end, the digits and colons are left once the `s` has
/// gone.
proof fn lemma_last_letter_goes(text: Seq<char>)
    requires
        forall|i: int| 0 <= i < text.len() ==> is_digit(#[trigger] text[i]) || text[i] == ':',
    ensures
        replace(text + "s"@, "s"@, ""@) == text,
{
    reveal_strlit("s");
    reveal_strlit("");
    assert(!text.contains('s')) by {
        if text.contains('s') {
            let i = choose|i: int| 0 <= i < text.len() && text[i] == 's';
            assert(is_digit(text[i]) || text[i] == ':');
        }
    }
    lemma_absent(text, "s"@, ""@);
    lemma_one_character(text, "s"@, "s"@);
    lemma_replace_joined(text, "s"@, "s"@, ""@);
    lemma_replace_whole("s"@, ""@);
    assert(text + ""@ == text);
}

/// Hours, minutes and seconds, each a number of any length, are read as what they are.
pub proof fn law_hours_minutes_seconds_are_read(
    hours: Seq<char>,
    minutes: Seq<char>,
    seconds: Seq<char>,
)
    requires
        is_number(hours),
        is_number(minutes),
        is_number(seconds),
        adds_up(
            decimal_value(hours) as int,
            decimal_value(minutes) as int,
            decimal_value(seconds) as int,
        ),
    ensures
        duration_read(hours + "h"@ + minutes + "m"@ + seconds + "s"@) == Some(
            (decimal_value(hours) * 3600 + decimal_value(minutes) * 60 + decimal_value(seconds))
                * 1000 as int,
        ),
{
    reveal_strlit("h");
    reveal_strlit("m");
    reveal_strlit("s");
    reveal_strlit(":");
    assert("h"@ == seq!['h'] && "m"@ == seq!['m'] && ":"@ == seq![':']);
    let text = hours + "h"@ + minutes + "m"@ + seconds + "s"@;
    let cut = hours + ":"@ + minutes + "m"@ + seconds + "s"@;
    let left = hours + ":"@ + minutes + ":"@ + seconds;
    lemma_number_holds_digits(hours);
    lemma_number_holds_digits(minutes);
    lemma_number_holds_digits(seconds);
    lemma_replace_character(text, 'h', ':');
    assert(replace(text, "h"@, ":"@) == cut);
    lemma_replace_character(cut, 'm', ':');
    assert(replace(cut, "m"@, ":"@) == left + "s"@);
    lemma_last_letter_goes(left);
    let rest = minutes + ":"@ + seconds;
    assert(left == hours + ":"@ + rest);
    lemma_absent(hours, ":"@, ""@);
    lemma_absent(minutes, ":"@, ""@);
    lemma_absent(seconds, ":"@, ""@);
    lemma_split_joined(hours, rest, ":"@);
    lemma_split_joined(minutes, seconds, ":"@);
    assert(duration_fields(text) == seq![hours, minutes, seconds]);
}

/// Minutes and seconds without hours are read as what they are.
pub proof fn law_minutes_seconds_are_read(minutes: Seq<char>, seconds: Seq<char>)
    requires
        is_number(minutes),
        is_number(seconds),
        adds_up(0, decimal_value(minutes) as int, decimal_value(seconds) as int),
    ensures
        duration_read(minutes + "m"@ + seconds + "s"@) == Some(
            (decimal_value(minutes) * 60 + decimal_value(seconds)) * 1000 as int,
        ),
{
    reveal_strlit("h");
    reveal_strlit("m");
    reveal_strlit("s");
    reveal_strlit(":");
    assert("h"@ == seq!['h'] && "m"@ == seq!['m'] && ":"@ == seq![':']);
    let text = minutes + "m"@ + seconds + "s"@;
    let left = minutes + ":"@ + seconds;
    lemma_number_holds_digits(minutes);
    lemma_number_holds_digits(seconds);
    lemma_replace_character(text, 'h', ':');
    assert(replace(text, "h"@, ":"@) == text);
    lemma_replace_character(text, 'm', ':');
    assert(replace(text, "m"@, ":"@) == left + "s"@);
    lemma_last_letter_goes(left);
    lemma_absent(minutes, ":"@, ""@);
    lemma_absent(seconds, ":"@, ""@);
    lemma_split_joined(minutes, seconds, ":"@);
    assert(duration_fields(text) == seq![minutes, seconds]);
}

/// Seconds alone are read as what they are.
pub proof fn law_seconds_are_read(seconds: Seq<char>)
    requires
        is_number(seconds),
        adds_up(0, 0, decimal_value(seconds) as int),
    ensures
        duration_read(seconds + "s"@) == Some(decimal_value(seconds) * 1000 as int),
{
    reveal_strlit("h");
    reveal_strlit("m");
    reveal_strlit("s");
    reveal_strlit(":");
    assert("h"@ == seq!['h'] && "m"@ == seq!['m'] && ":"@ == seq![':']);
    let text = seconds + "s"@;
    lemma_number_holds_digits(seconds);
    lemma_replace_character(text, 'h', ':');
    assert(replace(text, "h"@, ":"@) == text);
    lemma_replace_character(text, 'm', ':');
    assert(replace(text, "m"@, ":"@) == text);
    lemma_last_letter_goes(seconds);
    lemma_absent(seconds, ":"@, ""@);
    assert(duration_fields(text) == seq![seconds]);
}

/// The characters of a number are digits.
proof fn lemma_number_holds_digits(number: Seq<char>)
    requires
        is_number(number),
    ensures
        forall|i: int| 0 <= i < number.len() ==> is_digit(#[trigger] number[i]),
        is_digit(number[0]),
        !number.contains(':'),
{
    assert forall|i: int| 0 <= i < number.len() implies is_digit(#[trigger] number[i]) by {}
    if number.contains(':') {
        let i = choose|i: int| 0 <= i < number.len() && number[i] == ':';
        assert(is_digit(number[i]));
    }
}

/// Replacing a character by nothing leaves the other characters.
proof fn lemma_remove_character(s: Seq<char>, c: char)
    ensures
        replace(s, seq![c], seq![]) == s.filter(|x: char| x != c),
    decreases s.len(),
{
    reveal(Seq::filter);
    let none = Seq::<char>::empty();
    let kept = |x: char| x != c;
    if s.len() == 0 {
        lemma_absent(s, seq![c], none);
    } else {
        let head = s.drop_last();
        let last = seq![s.last()];
        lemma_remove_character(head, c);
        assert(head + last =~= s);
        lemma_one_character(head, last, seq![c]);
        lemma_replace_joined(head, last, seq![c], none);
        if s.last() == c {
            lemma_replace_whole(last, none);
            assert(replace(head, seq![c], none) + none =~= replace(head, seq![c], none));
        } else {
            lemma_absent(last, seq![c], none);
            assert(head.filter(kept) + last =~= head.filter(kept).push(s.last()));
        }
    }
}

/// The fields of a duration are what stands between its letters `h` and `m` and its colons, without
/// the letters `s`.
pub proof fn law_fields_stand_between_the_letters(duration: Seq<char>)
    ensures
        duration_fields(duration) == split(
            duration.map_values(
                |c: char|
                    if c == 'h' || c == 'm' {
                        ':'
                    } else {
                        c
                    },
            ).filter(|c: char| c != 's'),
            seq![':'],
        ),
{
    reveal_strlit("h");
    reveal_strlit("m");
    reveal_strlit("s");
    reveal_strlit(":");
    reveal_strlit("");
    assert("h"@ =~= seq!['h'] && "m"@ =~= seq!['m'] && "s"@ =~= seq!['s'] && ":"@ =~= seq![':']
        && ""@ =~= seq![]);
    lemma_replace_character(duration, 'h', ':');
    let cut = replace(duration, "h"@, ":"@);
    lemma_replace_character(cut, 'm', ':');
    let both = replace(cut, "m"@, ":"@);
    assert(both =~= duration.map_values(
        |c: char|
            if c == 'h' || c == 'm' {
                ':'
            } else {
                c
            },
    ));
    lemma_remove_character(both, 's');
}

/// A duration is the sum of its last three fields, which are hours, minutes and seconds: an hour is
/// sixty minutes, a minute sixty seconds and a second a thousand milliseconds. Fields that are
/// missing count as zero. There is no result where a field is no number, or where a field or a sum
/// does not fit.
pub proof fn law_duration_is_the_sum_of_its_fields(
    duration: Seq<char>,
    hours: int,
    minutes: int,
    seconds: int,
)
    requires
        ({
            let fields = duration_fields(duration);
            let n = fields.len() as int;
            &&& n >= 1
            &&& parsed_i64(fields[n - 1]) == Some(seconds)
            &&& if n >= 2 {
                parsed_i64(fields[n - 2]) == Some(minutes)
            } else {
                minutes == 0
            }
            &&& if n >= 3 {
                parsed_i64(fields[n - 3]) == Some(hours)
            } else {
                hours == 0
            }
        }),
    ensures
        ({
            let all = ((hours * 60 + minutes) * 60 + seconds) * 1000;
            let fit = {
                &&& -0x8000_0000_0000_0000 <= hours * 3_600_000 <= 0x7fff_ffff_ffff_ffff
                &&& -0x8000_0000_0000_0000 <= minutes * 60_000 <= 0x7fff_ffff_ffff_ffff
                &&& -0x8000_0000_0000_0000 <= seconds * 1000 <= 0x7fff_ffff_ffff_ffff
                &&& -0x8000_0000_0000_0000 <= (minutes * 60 + seconds) * 1000
                    <= 0x7fff_ffff_ffff_ffff
                &&& -0x8000_0000_0000_0000 < all <= 0x7fff_ffff_ffff_ffff
            };
            duration_read(duration) == if fit {
                Some(all)
            } else {
                None
            }
        }),
{
}

/// A duration is not read where one of its last three fields is no number.
pub proof fn law_duration_needs_numbers(duration: Seq<char>, i: int)
    requires
        0 <= i < duration_fields(duration).len(),
        i >= duration_fields(duration).len() - 3,
        parsed_i64(duration_fields(duration)[i]) is None,
    ensures
        duration_read(duration) is None,
{
    let fields = duration_fields(duration);
    let n = fields.len() - 1 - i;
    assert(field_value(fields, n) is None);
    assert(n == 0 || n == 1 || n == 2);
}

} // verus!
