//! The playlist that lists the parts of a video.
use vstd::prelude::*;
use vstd::slice::slice_subrange;
use vstd::utf8::{decode_utf8, encode_scalar, encode_utf8, is_ascii_chars, is_char_boundary};
use vstd::utf8::{decode_utf8_encode_utf8, decode_utf8_split, valid_utf8, valid_utf8_split};
use vstd::utf8::{encode_utf8_decode_utf8, encode_utf8_valid_utf8, is_ascii_chars_encode_utf8};
use vstd::utf8::{
    is_char_boundary_iff_not_is_continuation_byte, is_char_boundary_start_end_of_seq,
};

use crate::number::{is_float, reads_float};
use crate::table::{has_key, index_of, keys_differ, law_with_entry_inserts, value_of, with_entry};
use crate::table::{law_entry_keeps_its_place, law_keys_differ_two_by_two, lemma_index_from};
use crate::table::{Entry, Table};
use crate::text::{contains, lines, matches_at, split, starts_with, views};
use crate::text_laws::{law_text_is_split_at_its_first_match, law_text_starts_with_its_prefix};
use crate::text_laws::{law_pieces_make_up_the_text, law_text_without_a_match_stays_whole};
use crate::text_lemmas::lemma_split_in_two;
use crate::text::{has_match, matches_here, pieces, rows_of, to_chars, to_text};
use crate::time::{convert_twitch_time, hours_since, is_clock_time, is_instant};
use crate::time::{seconds_between, time_read, try_convert_twitch_time, unsigned_hours};
use crate::time::{law_seconds_are_counted_toward_zero, nanos_between, shown_by_clock};
use crate::time::{UtcDateTime, TWITCH_TIME_FORMAT};

verus! {

/// What is left of `s` without the first `n` bytes of its UTF-8 encoding, if a character begins
/// there or the text ends.
pub open spec fn text_from_byte(s: Seq<char>, n: int) -> Option<Seq<char>> {
    let bytes = encode_utf8(s);
    if is_char_boundary(bytes, n) {
        Some(decode_utf8(bytes.subrange(n, bytes.len() as int)))
    } else {
        None
    }
}

/// The duration in a line such as `#EXTINF:10.000,`: what stands behind the first eight bytes,
/// without the comma that it must end with. It must be a number.
pub open spec fn duration_text(line: Seq<char>) -> Option<Seq<char>> {
    match text_from_byte(line, 8) {
        Some(rest) => if rest.len() > 0 && rest.last() == ',' && is_float(rest.drop_last()) {
            Some(rest.drop_last())
        } else {
            None
        },
        None => None,
    }
}

/// Whether a line announces a part.
pub open spec fn is_part_line(line: Seq<char>) -> bool {
    contains(line, "#EXTINF"@)
}

/// Whether a line says which bytes of a file make up a part.
pub open spec fn is_range_line(line: Seq<char>) -> bool {
    contains(line, "#EXT-X-BYTERANGE"@)
}

/// What the lines from `i` on add to the parts in `known`, each with the text of its duration. The
/// name of a part is the line below the one that announces it; where that line gives a range of
/// bytes, it is the one below that, and then the part keeps the duration under which it came
/// first. There is no result where a part is announced without a name, or without a duration where
/// one is needed.
pub open spec fn parts_from(lines: Seq<Seq<char>>, i: int, known: Seq<Entry>) -> Option<Seq<Entry>>
    decreases lines.len() - i,
{
    if i >= lines.len() {
        Some(known)
    } else if !is_part_line(lines[i]) {
        parts_from(lines, i + 1, known)
    } else if i + 1 >= lines.len() {
        None
    } else if !is_range_line(lines[i + 1]) {
        match duration_text(lines[i]) {
            Some(duration) => parts_from(
                lines,
                i + 1,
                with_entry(known, lines[i + 1], duration),
            ),
            None => None,
        }
    } else if i + 2 >= lines.len() {
        None
    } else if has_key(known, lines[i + 2]) {
        parts_from(lines, i + 1, known)
    } else {
        match duration_text(lines[i]) {
            Some(duration) => parts_from(
                lines,
                i + 1,
                with_entry(known, lines[i + 2], duration),
            ),
            None => None,
        }
    }
}

/// The parts that a playlist lists, in the order in which they are listed first, each with the
/// text of its duration.
pub open spec fn parts_listed(playlist: Seq<char>) -> Option<Seq<Entry>> {
    parts_from(lines(playlist), 0, seq![])
}

/// A part of a video.
#[derive(Debug)]
pub struct Part {
    /// The name of the part, which is also the end of its address.
    pub name: String,
    /// The duration of the part in seconds, as a decimal fraction.
    pub duration: String,
}

/// The names and the durations of parts.
pub open spec fn entries_of(parts: Seq<Part>) -> Seq<Entry> {
    parts.map_values(|part: Part| (part.name@, part.duration@))
}

/// What is left of `text` without its first `n` bytes.
fn from_byte(text: &str, n: usize) -> (rest: Option<&str>)
    ensures
        match rest {
            Some(rest) => text_from_byte(text@, n as int) == Some(rest@),
            None => text_from_byte(text@, n as int) is None,
        },
{
    if text.is_char_boundary(n) {
        let (_, rest) = text.split_at(n);
        proof {
            encode_utf8_decode_utf8(rest@);
        }
        Some(rest)
    } else {
        None
    }
}

/// The duration in a line that announces a part.
fn read_duration(line: &Vec<char>) -> (duration: Option<String>)
    ensures
        match duration {
            Some(duration) => duration_text(line@) == Some(duration@),
            None => duration_text(line@) is None,
        },
{
    match from_byte(to_text(line).as_str(), 8) {
        Some(rest) => {
            let chars = to_chars(rest);
            let n: usize = chars.len();
            if n > 0 && chars[n - 1] == ',' {
                let number = slice_subrange(&chars, 0, n - 1);
                assert(number@ == chars@.drop_last());
                if reads_float(number) {
                    return Some(to_text(number));
                }
            }
            None
        },
        None => None,
    }
}

/// The parts that a playlist lists, if it can be read.
fn read_parts(playlist: &str) -> (parts: Option<Vec<Part>>)
    ensures
        match parts {
            Some(parts) => parts_listed(playlist@) == Some(entries_of(parts@)),
            None => parts_listed(playlist@) is None,
        },
{
    proof {
        reveal_strlit("#EXTINF");
        reveal_strlit("#EXT-X-BYTERANGE");
    }
    let rows = rows_of(&to_chars(playlist));
    let part_tag = to_chars("#EXTINF");
    let range_tag = to_chars("#EXT-X-BYTERANGE");
    let mut table = Table::new();
    let mut i: usize = 0;
    while i < rows.len()
        invariant
            i <= rows@.len(),
            views(rows@) == lines(playlist@),
            views(rows@).len() == rows@.len(),
            forall|j: int| 0 <= j < rows@.len() ==> views(rows@)[j] == #[trigger] rows@[j]@,
            part_tag@ == "#EXTINF"@,
            part_tag@.len() > 0,
            range_tag@ == "#EXT-X-BYTERANGE"@,
            range_tag@.len() > 0,
            parts_listed(playlist@) == parts_from(views(rows@), i as int, table@),
        decreases rows@.len() - i,
    {
        if has_match(&rows[i], &part_tag) {
            if rows.len() - i <= 1 {
                return None;
            }
            let named: usize = if !has_match(&rows[i + 1], &range_tag) {
                i + 1
            } else {
                if rows.len() - i <= 2 {
                    return None;
                }
                i + 2
            };
            let name = to_text(&rows[named]);
            if named == i + 1 || table.position(&name).is_none() {
                match read_duration(&rows[i]) {
                    None => {
                        return None;
                    },
                    Some(duration) => {
                        table.insert(name, duration);
                    },
                }
            }
        }
        i = i + 1;
    }
    let mut parts: Vec<Part> = Vec::new();
    let n: usize = table.len();
    for k in 0..n
        invariant
            n == table@.len(),
            entries_of(parts@) == table@.take(k as int),
    {
        let ghost before = parts@;
        parts.push(Part { name: table.key(k).clone(), duration: table.value(k).clone() });
        assert(entries_of(parts@) == entries_of(before).push(table@[k as int]));
        assert(table@.take(k + 1) == table@.take(k as int).push(table@[k as int]));
    }
    assert(table@.take(n as int) == table@);
    Some(parts)
}

/// The time in the first line from `i` on that says when the video was made.
pub open spec fn creation_time_from(lines: Seq<Seq<char>>, i: int) -> Option<Seq<char>>
    decreases lines.len() - i,
{
    if i >= lines.len() {
        None
    } else if starts_with(lines[i], "#ID3-EQUIV-TDTG:"@) {
        Some(split(lines[i], "ID3-EQUIV-TDTG:"@)[1])
    } else {
        creation_time_from(lines, i + 1)
    }
}

/// The text of the time at which a video was made, if its playlist says so.
pub open spec fn creation_time_text(playlist: Seq<char>) -> Option<Seq<char>> {
    creation_time_from(lines(playlist), 0)
}

/// The text of the time at which a video was made, if its playlist says so.
pub fn creation_time(playlist: &str) -> (time: Option<String>)
    ensures
        match time {
            Some(time) => creation_time_text(playlist@) == Some(time@),
            None => creation_time_text(playlist@) is None,
        },
{
    proof {
        reveal_strlit("#ID3-EQUIV-TDTG:");
        reveal_strlit("ID3-EQUIV-TDTG:");
    }
    let rows = rows_of(&to_chars(playlist));
    let start = to_chars("#ID3-EQUIV-TDTG:");
    let tag = to_chars("ID3-EQUIV-TDTG:");
    let mut i: usize = 0;
    while i < rows.len()
        invariant
            i <= rows@.len(),
            views(rows@) == lines(playlist@),
            views(rows@).len() == rows@.len(),
            forall|j: int| 0 <= j < rows@.len() ==> views(rows@)[j] == #[trigger] rows@[j]@,
            start@ == "#ID3-EQUIV-TDTG:"@,
            tag@ == "ID3-EQUIV-TDTG:"@,
            tag@.len() > 0,
            start@ == seq!['#'] + tag@,
            creation_time_text(playlist@) == creation_time_from(views(rows@), i as int),
        decreases rows@.len() - i,
    {
        if matches_here(&rows[i], &start, 0) {
            let parts = pieces(&rows[i], &tag);
            proof {
                let line = rows@[i as int]@;
                let n = start@.len() as int;
                assert(line.subrange(1, n) == line.subrange(0, n).subrange(1, n));
                assert(start@.subrange(1, n) == tag@);
                assert(matches_at(line, tag@, 1));
                lemma_split_in_two(line, tag@);
                assert(views(parts@)[1] == parts@[1]@);
            }
            return Some(to_text(&parts[1]));
        }
        i = i + 1;
    }
    None
}

/// The age in hours that a video has if its playlist does not say when it was made.
pub const DEFAULT_AGE: u64 = 25;

/// The age in hours of a video whose playlist gives the point in time `created`, at the point in
/// time `now`.
pub fn age_at(created: Option<UtcDateTime>, now: &UtcDateTime) -> (hours: u64)
    ensures
        hours == match created {
            Some(created) => unsigned_hours(seconds_between(created@, now@)),
            None => DEFAULT_AGE as int,
        },
{
    match created {
        Some(created) => hours_since(&created, now),
        None => DEFAULT_AGE,
    }
}

/// Whether a playlist of parts can be read: its parts, and the time if it gives one.
pub open spec fn is_readable(playlist: Seq<char>) -> bool {
    &&& parts_listed(playlist) is Some
    &&& creation_time_text(playlist) matches Some(time) ==> time_read(
        time,
        TWITCH_TIME_FORMAT@,
    ) is Some
}

/// The age in hours of a video at the point in time `now`: counted from the time that its playlist
/// gives, or else the default.
pub open spec fn age_of(playlist: Seq<char>, now: (i64, u32)) -> int {
    match creation_time_text(playlist) {
        Some(time) => unsigned_hours(
            seconds_between(time_read(time, TWITCH_TIME_FORMAT@)->0, now),
        ),
        None => DEFAULT_AGE as int,
    }
}

/// The age in hours of a video at the point in time `now`, and its parts.
pub fn get_parts_at(playlist: &str, now: &UtcDateTime) -> (result: (u64, Vec<Part>))
    requires
        is_readable(playlist@),
    ensures
        result.0 == age_of(playlist@, now@),
        creation_time_text(playlist@) matches Some(time) ==> result.0 == unsigned_hours(
            seconds_between(time_read(time, "%Y-%m-%dT%H:%M:%S%z"@)->0, now@),
        ),
        creation_time_text(playlist@) is None ==> result.0 == 25,
        parts_listed(playlist@) == Some(entries_of(result.1@)),
{
    let created = match creation_time(playlist) {
        Some(time) => Some(convert_twitch_time(time.as_str())),
        None => None,
    };
    (age_at(created, now), read_parts(playlist).unwrap())
}

/// Whether `hours` is the age of a video at a point in time that the clock showed. Where the
/// playlist does not say when the video was made, it is the default.
pub open spec fn is_age(playlist: Seq<char>, hours: u64) -> bool {
    match creation_time_text(playlist) {
        Some(_) => exists|now: (i64, u32)|
            is_clock_time(now) && shown_by_clock(now) && hours == #[trigger] age_of(playlist, now),
        None => hours == DEFAULT_AGE,
    }
}

/// The age in hours of a video and its parts. The age is counted from the time that the playlist
/// gives to the current time.
pub fn get_parts(playlist: &str) -> (result: (u64, Vec<Part>))
    requires
        is_readable(playlist@),
    ensures
        is_age(playlist@, result.0),
        creation_time_text(playlist@) matches Some(time) ==> exists|now: UtcDateTime| #[trigger]
            call_ensures(UtcDateTime::now, (), now) && result.0 == unsigned_hours(
                seconds_between(time_read(time, "%Y-%m-%dT%H:%M:%S%z"@)->0, now@),
            ),
        creation_time_text(playlist@) is None ==> result.0 == 25,
        parts_listed(playlist@) == Some(entries_of(result.1@)),
{
    if creation_time(playlist).is_none() {
        return (DEFAULT_AGE, read_parts(playlist).unwrap());
    }
    let now = UtcDateTime::now();
    let result = get_parts_at(playlist, &now);
    assert(result.0 == age_of(playlist@, now@));
    result
}

/// The age in hours of a video and its parts, where the playlist can be read.
pub fn try_get_parts(playlist: &str) -> (result: Option<(u64, Vec<Part>)>)
    ensures
        match result {
            Some((age, parts)) => is_readable(playlist@) && is_age(playlist@, age) && parts_listed(
                playlist@,
            ) == Some(entries_of(parts@)),
            None => !is_readable(playlist@),
        },
        result is None <==> parts_listed(playlist@) is None || (creation_time_text(
            playlist@,
        ) matches Some(time) && time_read(time, "%Y-%m-%dT%H:%M:%S%z"@) is None),
        result matches Some((age, parts)) ==> (creation_time_text(playlist@) matches Some(time)
            ==> exists|now: UtcDateTime| #[trigger]
            call_ensures(UtcDateTime::now, (), now) && age == unsigned_hours(
                seconds_between(time_read(time, "%Y-%m-%dT%H:%M:%S%z"@)->0, now@),
            )),
        result matches Some((age, parts)) ==> (creation_time_text(playlist@) is None ==> age == 25),
{
    if read_parts(playlist).is_none() {
        return None;
    }
    if let Some(time) = creation_time(playlist) {
        if try_convert_twitch_time(time.as_str()).is_none() {
            return None;
        }
    }
    Some(get_parts(playlist))
}

/// The line that holds the name of the part that the line `i` announces.
pub open spec fn name_line(lines: Seq<Seq<char>>, i: int) -> int {
    if is_range_line(lines[i + 1]) {
        i + 2
    } else {
        i + 1
    }
}

/// Whether the line `i` announces the part `name`.
pub open spec fn announces_part(lines: Seq<Seq<char>>, i: int, name: Seq<char>) -> bool {
    &&& 0 <= i < lines.len()
    &&& is_part_line(lines[i])
    &&& name_line(lines, i) < lines.len()
    &&& lines[name_line(lines, i)] == name
}

/// Reading further lines keeps the names of the parts different, and a part is known in the end
/// if it was known before or one of those lines announces it.
proof fn lemma_parts_from(lines: Seq<Seq<char>>, i: int, known: Seq<Entry>, name: Seq<char>)
    requires
        0 <= i,
        keys_differ(known),
        parts_from(lines, i, known) is Some,
    ensures
        keys_differ(parts_from(lines, i, known)->0),
        has_key(parts_from(lines, i, known)->0, name) <==> (has_key(known, name) || exists|j: int|
            i <= j && #[trigger] announces_part(lines, j, name)),
    decreases lines.len() - i,
{
    if i < lines.len() {
        if !is_part_line(lines[i]) {
            lemma_parts_from(lines, i + 1, known, name);
        } else {
            let named = lines[name_line(lines, i)];
            if is_range_line(lines[i + 1]) && has_key(known, named) {
                lemma_parts_from(lines, i + 1, known, name);
                if named == name {
                    assert(announces_part(lines, i, name));
                }
            } else {
                let duration = duration_text(lines[i])->0;
                let more = with_entry(known, named, duration);
                law_with_entry_inserts(known, named, duration);
                lemma_parts_from(lines, i + 1, more, name);
                assert(value_of(more, name) is Some == has_key(more, name));
                assert(value_of(known, name) is Some == has_key(known, name));
                if named == name {
                    assert(announces_part(lines, i, name));
                }
            }
        }
    }
}

/// A playlist gives each of its parts once.
pub proof fn law_part_names_differ(playlist: Seq<char>)
    requires
        parts_listed(playlist) is Some,
    ensures
        keys_differ(parts_listed(playlist)->0),
{
    lemma_parts_from(lines(playlist), 0, seq![], seq![]);
}

/// The parts of a playlist are those that its lines announce, all of them and no others.
pub proof fn law_announced_parts_are_listed(playlist: Seq<char>, name: Seq<char>)
    requires
        parts_listed(playlist) is Some,
    ensures
        has_key(parts_listed(playlist)->0, name) <==> exists|i: int| #[trigger]
            announces_part(lines(playlist), i, name),
{
    lemma_parts_from(lines(playlist), 0, seq![], name);
}

/// Whether the line `i` can be read if it announces a part: the part has a name, and a duration
/// unless the line announces a range of a part that an earlier line announces too.
pub open spec fn is_complete(lines: Seq<Seq<char>>, i: int) -> bool {
    is_part_line(lines[i]) ==> {
        &&& i + 1 < lines.len()
        &&& name_line(lines, i) < lines.len()
        &&& duration_text(lines[i]) is Some || (is_range_line(lines[i + 1]) && exists|j: int|
            0 <= j < i && #[trigger] announces_part(lines, j, lines[name_line(lines, i)]))
    }
}

/// Whether the line `i` can be read if it announces a part, where the lines from `from` on are read
/// and `known` are the parts before them.
spec fn is_complete_from(lines: Seq<Seq<char>>, from: int, known: Seq<Entry>, i: int) -> bool {
    is_part_line(lines[i]) ==> {
        &&& i + 1 < lines.len()
        &&& name_line(lines, i) < lines.len()
        &&& duration_text(lines[i]) is Some || (is_range_line(lines[i + 1]) && (has_key(
            known,
            lines[name_line(lines, i)],
        ) || exists|j: int|
            from <= j < i && #[trigger] announces_part(lines, j, lines[name_line(lines, i)])))
    }
}

/// Lines can be read together if and only if they can be read one by one.
proof fn lemma_complete_lines_are_read(lines: Seq<Seq<char>>, from: int, known: Seq<Entry>)
    requires
        0 <= from,
        keys_differ(known),
    ensures
        parts_from(lines, from, known) is Some <==> forall|i: int|
            from <= i < lines.len() ==> #[trigger] is_complete_from(lines, from, known, i),
    decreases lines.len() - from,
{
    if from < lines.len() {
        let next = from + 1;
        let name = lines[name_line(lines, from)];
        let duration = duration_text(lines[from])->0;
        let more = if is_part_line(lines[from]) && !(is_range_line(lines[from + 1]) && has_key(
            known,
            name,
        )) {
            with_entry(known, name, duration)
        } else {
            known
        };
        law_with_entry_inserts(known, name, duration);
        if is_complete_from(lines, from, known, from) {
            lemma_complete_lines_are_read(lines, next, more);
            assert forall|i: int|
                #![trigger is_complete_from(lines, from, known, i)]
                #![trigger is_complete_from(lines, next, more, i)]
                from < i < lines.len() implies is_complete_from(lines, from, known, i)
                == is_complete_from(lines, next, more, i) by {
                let other = lines[name_line(lines, i)];
                assert(announces_part(lines, from, other) == (is_part_line(lines[from]) && other
                    == name));
                assert(value_of(more, other) is Some == has_key(more, other));
                assert(value_of(known, other) is Some == has_key(known, other));
            }
        }
    }
}

/// The parts of a playlist can be read if and only if each line that announces one can be read.
pub proof fn law_complete_playlist_lists_its_parts(playlist: Seq<char>)
    ensures
        parts_listed(playlist) is Some <==> forall|i: int|
            0 <= i < lines(playlist).len() ==> #[trigger] is_complete(lines(playlist), i),
{
    let all = lines(playlist);
    let none = Seq::<Entry>::empty();
    lemma_complete_lines_are_read(all, 0, none);
    assert forall|i: int|
        #![trigger is_complete(all, i)]
        #![trigger is_complete_from(all, 0, none, i)]
        0 <= i < all.len() implies is_complete(all, i) == is_complete_from(all, 0, none, i) by {
        assert(index_of(none, all[name_line(all, i)]) is None);
    }
}

/// A playlist is not read in part: where one line announces a part without a name, or without a
/// duration that is needed, there is no result.
pub proof fn law_incomplete_line_spoils_the_playlist(playlist: Seq<char>, i: int)
    requires
        0 <= i < lines(playlist).len(),
        !is_complete(lines(playlist), i),
    ensures
        parts_listed(playlist) is None,
        !is_readable(playlist),
{
    law_complete_playlist_lists_its_parts(playlist);
}

/// Whether the line `i` announces the part `name` as a whole file.
pub open spec fn announces_whole(lines: Seq<Seq<char>>, i: int, name: Seq<char>) -> bool {
    announces_part(lines, i, name) && !is_range_line(lines[i + 1])
}

/// Whether the line `i` announces a range of bytes of the part `name`.
pub open spec fn announces_range(lines: Seq<Seq<char>>, i: int, name: Seq<char>) -> bool {
    announces_part(lines, i, name) && is_range_line(lines[i + 1])
}

/// A known part keeps its duration where no line announces it as a whole file.
proof fn lemma_duration_is_kept(lines: Seq<Seq<char>>, i: int, known: Seq<Entry>, name: Seq<char>)
    requires
        0 <= i,
        keys_differ(known),
        has_key(known, name),
        parts_from(lines, i, known) is Some,
        forall|j: int| i <= j ==> !#[trigger] announces_whole(lines, j, name),
    ensures
        value_of(parts_from(lines, i, known)->0, name) == value_of(known, name),
    decreases lines.len() - i,
{
    if i < lines.len() {
        let named = lines[name_line(lines, i)];
        if !is_part_line(lines[i]) || (is_range_line(lines[i + 1]) && has_key(known, named)) {
            lemma_duration_is_kept(lines, i + 1, known, name);
        } else {
            let duration = duration_text(lines[i])->0;
            let more = with_entry(known, named, duration);
            assert(!announces_whole(lines, i, name));
            law_with_entry_inserts(known, named, duration);
            assert(value_of(more, name) == value_of(known, name));
            lemma_duration_is_kept(lines, i + 1, more, name);
        }
    }
}

/// The last line that announces a part as a whole file gives its duration.
proof fn lemma_last_duration_counts(
    lines: Seq<Seq<char>>,
    i: int,
    known: Seq<Entry>,
    name: Seq<char>,
    last: int,
)
    requires
        0 <= i <= last,
        keys_differ(known),
        parts_from(lines, i, known) is Some,
        announces_whole(lines, last, name),
        forall|j: int| last < j ==> !#[trigger] announces_whole(lines, j, name),
    ensures
        duration_text(lines[last]) is Some,
        value_of(parts_from(lines, i, known)->0, name) == duration_text(lines[last]),
    decreases lines.len() - i,
{
    let named = lines[name_line(lines, i)];
    if !is_part_line(lines[i]) || (is_range_line(lines[i + 1]) && has_key(known, named)) {
        lemma_last_duration_counts(lines, i + 1, known, name, last);
    } else {
        let duration = duration_text(lines[i])->0;
        let more = with_entry(known, named, duration);
        law_with_entry_inserts(known, named, duration);
        if i < last {
            lemma_last_duration_counts(lines, i + 1, more, name, last);
        } else {
            assert(value_of(more, name) == Some(duration));
            lemma_duration_is_kept(lines, i + 1, more, name);
        }
    }
}

/// The first line that announces a range of a part gives its duration, where none announces the
/// part as a whole file.
proof fn lemma_first_duration_counts(
    lines: Seq<Seq<char>>,
    i: int,
    known: Seq<Entry>,
    name: Seq<char>,
    first: int,
)
    requires
        0 <= i <= first,
        keys_differ(known),
        !has_key(known, name),
        parts_from(lines, i, known) is Some,
        announces_range(lines, first, name),
        forall|j: int| i <= j < first ==> !#[trigger] announces_range(lines, j, name),
        forall|j: int| i <= j ==> !#[trigger] announces_whole(lines, j, name),
    ensures
        duration_text(lines[first]) is Some,
        value_of(parts_from(lines, i, known)->0, name) == duration_text(lines[first]),
    decreases lines.len() - i,
{
    let named = lines[name_line(lines, i)];
    if !is_part_line(lines[i]) || (is_range_line(lines[i + 1]) && has_key(known, named)) {
        lemma_first_duration_counts(lines, i + 1, known, name, first);
    } else {
        let duration = duration_text(lines[i])->0;
        let more = with_entry(known, named, duration);
        law_with_entry_inserts(known, named, duration);
        assert(value_of(known, name) is None);
        if i < first {
            assert(!announces_whole(lines, i, name));
            assert(!announces_range(lines, i, name));
            assert(value_of(more, name) is None);
            lemma_first_duration_counts(lines, i + 1, more, name, first);
        } else {
            assert(value_of(more, name) == Some(duration));
            lemma_duration_is_kept(lines, i + 1, more, name);
        }
    }
}

/// A part that is announced as a whole file has the duration in the last line that announces it
/// so.
pub proof fn law_last_duration_of_a_whole_part_counts(
    playlist: Seq<char>,
    name: Seq<char>,
    last: int,
)
    requires
        parts_listed(playlist) is Some,
        announces_whole(lines(playlist), last, name),
        forall|j: int| last < j ==> !#[trigger] announces_whole(lines(playlist), j, name),
    ensures
        duration_text(lines(playlist)[last]) is Some,
        value_of(parts_listed(playlist)->0, name) == duration_text(lines(playlist)[last]),
{
    lemma_last_duration_counts(lines(playlist), 0, seq![], name, last);
}

/// A part that is announced in ranges only has the duration in the first line that announces one.
pub proof fn law_first_duration_of_a_part_in_ranges_counts(
    playlist: Seq<char>,
    name: Seq<char>,
    first: int,
)
    requires
        parts_listed(playlist) is Some,
        announces_range(lines(playlist), first, name),
        forall|j: int| 0 <= j < first ==> !#[trigger] announces_range(lines(playlist), j, name),
        forall|j: int| !#[trigger] announces_whole(lines(playlist), j, name),
    ensures
        duration_text(lines(playlist)[first]) is Some,
        value_of(parts_listed(playlist)->0, name) == duration_text(lines(playlist)[first]),
{
    lemma_first_duration_counts(lines(playlist), 0, seq![], name, first);
}

/// The encoding of two texts that are joined is the encodings joined.
proof fn lemma_encode_joined(a: Seq<char>, b: Seq<char>)
    ensures
        encode_utf8(a + b) == encode_utf8(a) + encode_utf8(b),
    decreases a.len(),
{
    if a.len() == 0 {
        assert(a + b == b);
        assert(encode_utf8(a) + encode_utf8(b) == encode_utf8(b));
    } else {
        lemma_encode_joined(a.drop_first(), b);
        assert((a + b).drop_first() == a.drop_first() + b);
        assert(encode_utf8(a + b) == encode_scalar(a[0] as u32) + (encode_utf8(a.drop_first())
            + encode_utf8(b)));
        assert(encode_utf8(a + b) == encode_utf8(a) + encode_utf8(b));
    }
}

/// A text can be cut where another one was added to it.
proof fn lemma_cut_where_joined(a: Seq<char>, b: Seq<char>)
    ensures
        text_from_byte(a + b, encode_utf8(a).len() as int) == Some(b),
{
    let n = encode_utf8(a).len() as int;
    let bytes = encode_utf8(a + b);
    lemma_encode_joined(a, b);
    encode_utf8_valid_utf8(a + b);
    encode_utf8_valid_utf8(b);
    encode_utf8_decode_utf8(b);
    assert(bytes.subrange(n, bytes.len() as int) == encode_utf8(b));
    if encode_utf8(b).len() == 0 {
        is_char_boundary_start_end_of_seq(bytes);
    } else {
        is_char_boundary_start_end_of_seq(encode_utf8(b));
        is_char_boundary_iff_not_is_continuation_byte(encode_utf8(b), 0);
        is_char_boundary_iff_not_is_continuation_byte(bytes, n);
        assert(bytes[n] == encode_utf8(b)[0]);
    }
}

/// The duration of a part is the number between the tag and the comma at the end of the line.
pub proof fn law_duration_is_read(duration: Seq<char>)
    requires
        is_float(duration),
    ensures
        duration_text("#EXTINF:"@ + duration + ","@) == Some(duration),
{
    reveal_strlit("#EXTINF:");
    reveal_strlit(",");
    let rest = duration + ","@;
    assert("#EXTINF:"@ + duration + ","@ == "#EXTINF:"@ + rest);
    assert(is_ascii_chars("#EXTINF:"@));
    is_ascii_chars_encode_utf8("#EXTINF:"@);
    lemma_cut_where_joined("#EXTINF:"@, rest);
    assert(rest.drop_last() == duration);
}

/// A video is younger than a day if it was made in the last day. One that was made a second or
/// more after the current time is not.
pub proof fn law_young_video_was_made_in_the_last_day(created: (i64, u32), now: (i64, u32))
    requires
        is_instant(created),
        is_instant(now),
    ensures
        unsigned_hours(seconds_between(created, now)) < 24 <==> 0 <= seconds_between(created, now)
            < 86_400,
{
}

/// A line announces a part if it holds the tag for that, and gives a range of bytes if it holds the
/// tag for that, wherever in the line the tag stands.
pub proof fn law_lines_are_known_by_their_tags(line: Seq<char>)
    ensures
        is_part_line(line) <==> exists|i: int| #[trigger] matches_at(line, "#EXTINF"@, i),
        is_range_line(line) <==> exists|i: int|
            #[trigger] matches_at(line, "#EXT-X-BYTERANGE"@, i),
{
}

/// A text can be cut behind the bytes of its beginning, and what is left is the rest.
pub proof fn law_beginning_can_be_cut_off(beginning: Seq<char>, rest: Seq<char>)
    ensures
        text_from_byte(beginning + rest, encode_utf8(beginning).len() as int) == Some(rest),
{
    lemma_cut_where_joined(beginning, rest);
}

/// Where something is left of a text, the bytes that were cut off are those of its beginning.
pub proof fn law_what_was_cut_off_is_a_beginning(s: Seq<char>, n: int) -> (beginning: Seq<char>)
    requires
        text_from_byte(s, n) is Some,
    ensures
        s == beginning + text_from_byte(s, n)->0,
        encode_utf8(beginning).len() == n,
{
    let bytes = encode_utf8(s);
    encode_utf8_valid_utf8(s);
    encode_utf8_decode_utf8(s);
    lemma_boundary_in_bounds(bytes, n);
    valid_utf8_split(bytes, n);
    decode_utf8_split(bytes, n);
    decode_utf8_encode_utf8(bytes.subrange(0, n));
    decode_utf8(bytes.subrange(0, n))
}

/// A boundary of a character lies within the bytes.
proof fn lemma_boundary_in_bounds(bytes: Seq<u8>, n: int)
    requires
        valid_utf8(bytes),
        is_char_boundary(bytes, n),
    ensures
        0 <= n <= bytes.len(),
{
}

/// The duration of a part is the number behind the first eight bytes and before the comma at the
/// end of the line, whatever the eight bytes are.
pub proof fn law_duration_stands_behind_eight_bytes(beginning: Seq<char>, duration: Seq<char>)
    requires
        encode_utf8(beginning).len() == 8,
        is_float(duration),
    ensures
        duration_text(beginning + duration + ","@) == Some(duration),
{
    reveal_strlit(",");
    let rest = duration + ","@;
    assert(beginning + duration + ","@ =~= beginning + rest);
    lemma_cut_where_joined(beginning, rest);
    assert(rest.drop_last() =~= duration);
}

/// A line that gives a duration is made of eight bytes, the duration, which is a number, and a
/// comma.
pub proof fn law_line_with_a_duration_has_three_pieces(line: Seq<char>) -> (beginning: Seq<char>)
    requires
        duration_text(line) is Some,
    ensures
        encode_utf8(beginning).len() == 8,
        is_float(duration_text(line)->0),
        line == beginning + duration_text(line)->0 + ","@,
{
    reveal_strlit(",");
    let beginning = law_what_was_cut_off_is_a_beginning(line, 8);
    let rest = text_from_byte(line, 8)->0;
    assert(rest =~= rest.drop_last() + ","@);
    assert(line =~= beginning + rest.drop_last() + ","@);
    beginning
}

/// The parts that a playlist lists are the files that stand below the lines that announce a part,
/// or below the range of bytes that follows such a line.
pub proof fn law_parts_are_the_files_below(playlist: Seq<char>, name: Seq<char>)
    requires
        parts_listed(playlist) is Some,
    ensures
        ({
            let all = lines(playlist);
            has_key(parts_listed(playlist)->0, name) <==> exists|i: int|
                {
                    &&& 0 <= i < all.len() - 1
                    &&& is_part_line(#[trigger] all[i])
                    &&& if is_range_line(all[i + 1]) {
                        i + 2 < all.len() && all[i + 2] == name
                    } else {
                        all[i + 1] == name
                    }
                }
        }),
{
    let all = lines(playlist);
    law_announced_parts_are_listed(playlist, name);
    law_complete_playlist_lists_its_parts(playlist);
    if exists|i: int| #[trigger] announces_part(all, i, name) {
        let i = choose|i: int| #[trigger] announces_part(all, i, name);
        assert(is_complete(all, i));
        assert(is_part_line(all[i]));
    }
    if exists|i: int|
        {
            &&& 0 <= i < all.len() - 1
            &&& is_part_line(#[trigger] all[i])
            &&& if is_range_line(all[i + 1]) {
                i + 2 < all.len() && all[i + 2] == name
            } else {
                all[i + 1] == name
            }
        } {
        let i = choose|i: int|
            {
                &&& 0 <= i < all.len() - 1
                &&& is_part_line(#[trigger] all[i])
                &&& if is_range_line(all[i + 1]) {
                    i + 2 < all.len() && all[i + 2] == name
                } else {
                    all[i + 1] == name
                }
            };
        assert(announces_part(all, i, name));
    }
}

/// The name of a part stands in the line below, and in the one below that where the line below
/// gives a range of bytes.
pub proof fn law_name_stands_below(lines: Seq<Seq<char>>, i: int, name: Seq<char>)
    requires
        0 <= i < lines.len(),
    ensures
        announces_whole(lines, i, name) <==> is_part_line(lines[i]) && i + 1 < lines.len()
            && !is_range_line(lines[i + 1]) && lines[i + 1] == name,
        i + 1 < lines.len() ==> (announces_range(lines, i, name) <==> is_part_line(lines[i]) && i
            + 2 < lines.len() && is_range_line(lines[i + 1]) && lines[i + 2] == name),
        i + 1 < lines.len() ==> (announces_part(lines, i, name) <==> announces_whole(lines, i, name)
            || announces_range(lines, i, name)),
{
}

/// The time at which a video was made is the first piece of what stands behind the tag of the first
/// line that begins with it.
proof fn lemma_creation_time(playlist: Seq<char>, i: int, tail: Seq<char>)
    requires
        0 <= i < lines(playlist).len(),
        forall|j: int|
            0 <= j < i ==> !("#ID3-EQUIV-TDTG:"@).is_prefix_of(#[trigger] lines(playlist)[j]),
        lines(playlist)[i] == "#ID3-EQUIV-TDTG:"@ + tail,
    ensures
        creation_time_text(playlist) == Some(split(tail, "ID3-EQUIV-TDTG:"@)[0]),
        ("ID3-EQUIV-TDTG:"@).len() > 0,
{
    reveal_strlit("#ID3-EQUIV-TDTG:");
    reveal_strlit("ID3-EQUIV-TDTG:");
    let start = "#ID3-EQUIV-TDTG:"@;
    let tag = "ID3-EQUIV-TDTG:"@;
    let line = lines(playlist)[i];
    let whole = seq!['#'] + tag + tail;
    lemma_skips_to_creation_time(lines(playlist), 0, i);
    assert(line =~= whole);
    law_text_starts_with_its_prefix(line, start);
    assert(start.is_prefix_of(line)) by {
        assert(line.take(start.len() as int) =~= start);
    }
    assert forall|j: int| 0 <= j < 1 implies !#[trigger] matches_at(whole, tag, j) by {
        if matches_at(whole, tag, j) {
            assert(whole.subrange(j, j + tag.len())[0] == '#');
        }
    }
    law_text_is_split_at_its_first_match(seq!['#'], tag, tail);
    law_pieces_make_up_the_text(tail, tag, tag);
    assert(split(line, tag)[1] == split(tail, tag)[0]);
}

/// The time at which a video was made stands behind the tag of the first line that begins with it.
pub proof fn law_creation_time_stands_behind_its_tag(playlist: Seq<char>, i: int, time: Seq<char>)
    requires
        0 <= i < lines(playlist).len(),
        forall|j: int|
            0 <= j < i ==> !("#ID3-EQUIV-TDTG:"@).is_prefix_of(#[trigger] lines(playlist)[j]),
        lines(playlist)[i] == "#ID3-EQUIV-TDTG:"@ + time,
        forall|j: int| !#[trigger] matches_at(time, "ID3-EQUIV-TDTG:"@, j),
    ensures
        creation_time_text(playlist) == Some(time),
{
    lemma_creation_time(playlist, i, time);
    law_text_without_a_match_stays_whole(time, "ID3-EQUIV-TDTG:"@, ""@);
}

/// The time at which a video was made ends where the tag stands again.
pub proof fn law_creation_time_ends_at_the_next_tag(
    playlist: Seq<char>,
    i: int,
    time: Seq<char>,
    rest: Seq<char>,
)
    requires
        0 <= i < lines(playlist).len(),
        forall|j: int|
            0 <= j < i ==> !("#ID3-EQUIV-TDTG:"@).is_prefix_of(#[trigger] lines(playlist)[j]),
        lines(playlist)[i] == "#ID3-EQUIV-TDTG:"@ + (time + "ID3-EQUIV-TDTG:"@ + rest),
        forall|j: int|
            0 <= j < time.len() ==> !#[trigger] matches_at(
                time + "ID3-EQUIV-TDTG:"@ + rest,
                "ID3-EQUIV-TDTG:"@,
                j,
            ),
    ensures
        creation_time_text(playlist) == Some(time),
{
    lemma_creation_time(playlist, i, time + "ID3-EQUIV-TDTG:"@ + rest);
    law_text_is_split_at_its_first_match(time, "ID3-EQUIV-TDTG:"@, rest);
}

/// Lines that do not begin with the tag are skipped.
proof fn lemma_skips_to_creation_time(lines: Seq<Seq<char>>, from: int, i: int)
    requires
        0 <= from <= i <= lines.len(),
        forall|j: int|
            from <= j < i ==> !("#ID3-EQUIV-TDTG:"@).is_prefix_of(#[trigger] lines[j]),
    ensures
        creation_time_from(lines, from) == creation_time_from(lines, i),
    decreases i - from,
{
    if from < i {
        law_text_starts_with_its_prefix(lines[from], "#ID3-EQUIV-TDTG:"@);
        lemma_skips_to_creation_time(lines, from + 1, i);
    }
}

/// Where no line begins with the tag, the playlist does not say when the video was made.
pub proof fn law_no_creation_time_without_its_tag(playlist: Seq<char>)
    requires
        forall|j: int|
            0 <= j < lines(playlist).len() ==> !("#ID3-EQUIV-TDTG:"@).is_prefix_of(
                #[trigger] lines(playlist)[j],
            ),
    ensures
        creation_time_text(playlist) is None,
{
    lemma_skips_to_creation_time(lines(playlist), 0, lines(playlist).len() as int);
}

/// At two points in time the ages of a video differ by the hours between them, where whole hours
/// lie between them and none of them is before the video was made.
pub proof fn law_age_grows_by_the_hour(playlist: Seq<char>, now: (i64, u32), hours: int, later: i64)
    requires
        creation_time_text(playlist) is Some,
        time_read(creation_time_text(playlist)->0, "%Y-%m-%dT%H:%M:%S%z"@) matches Some(created)
            && created.1 < 1_000_000_000 && seconds_between(created, now) >= 0 && nanos_between(
            created,
            now,
        ) >= 0,
        now.1 < 1_000_000_000,
        hours >= 0,
        later == now.0 + 3600 * hours,
    ensures
        age_of(playlist, (later, now.1)) == age_of(playlist, now) + hours,
{
    let created = time_read(creation_time_text(playlist)->0, "%Y-%m-%dT%H:%M:%S%z"@)->0;
    let a = nanos_between(created, now);
    let b = nanos_between(created, (later, now.1));
    assert(b == a + 3600 * hours * 1_000_000_000);
    assert(b / 1_000_000_000 == a / 1_000_000_000 + 3600 * hours);
    let s = a / 1_000_000_000;
    assert((s + 3600 * hours) / 3600 == s / 3600 + hours);
}

/// Each part has its own name and duration.
pub proof fn law_entries_are_those_of_the_parts(parts: Seq<Part>, i: int)
    requires
        0 <= i < parts.len(),
    ensures
        entries_of(parts).len() == parts.len(),
        entries_of(parts)[i].0 == parts[i].name@,
        entries_of(parts)[i].1 == parts[i].duration@,
{
}

/// A playlist is read if every line that announces a part gives a duration and has the name below.
pub proof fn law_playlist_with_names_and_durations_is_read(playlist: Seq<char>)
    requires
        forall|i: int|
            0 <= i < lines(playlist).len() && is_part_line(#[trigger] lines(playlist)[i]) ==> {
                &&& i + 1 < lines(playlist).len()
                &&& is_range_line(lines(playlist)[i + 1]) ==> i + 2 < lines(playlist).len()
                &&& duration_text(lines(playlist)[i]) is Some
            },
    ensures
        parts_listed(playlist) is Some,
{
    law_complete_playlist_lists_its_parts(playlist);
    assert forall|i: int| 0 <= i < lines(playlist).len() implies #[trigger] is_complete(
        lines(playlist),
        i,
    ) by {
        assert(is_part_line(lines(playlist)[i]) ==> duration_text(lines(playlist)[i]) is Some);
    }
}

/// A playlist is not read if a line announces a part and has no name below, or announces a whole
/// file and gives no duration.
pub proof fn law_playlist_without_a_name_or_a_duration_is_not_read(playlist: Seq<char>, i: int)
    requires
        0 <= i < lines(playlist).len(),
        is_part_line(lines(playlist)[i]),
        ({
            let all = lines(playlist);
            ||| i + 1 >= all.len()
            ||| is_range_line(all[i + 1]) && i + 2 >= all.len()
            ||| !is_range_line(all[i + 1]) && duration_text(all[i]) is None
        }),
    ensures
        parts_listed(playlist) is None,
{
    law_complete_playlist_lists_its_parts(playlist);
    if parts_listed(playlist) is Some {
        assert(is_complete(lines(playlist), i));
    }
}

/// What is known when the lines before `to` have been read: the reading goes on from there, and the
/// parts are those that were known and those that the lines announce.
proof fn lemma_read_up_to(
    lines: Seq<Seq<char>>,
    from: int,
    known: Seq<Entry>,
    to: int,
) -> (mid: Seq<Entry>)
    requires
        0 <= from <= to <= lines.len(),
        keys_differ(known),
        parts_from(lines, from, known) is Some,
    ensures
        keys_differ(mid),
        parts_from(lines, to, mid) == parts_from(lines, from, known),
        forall|name: Seq<char>| #[trigger]
            has_key(mid, name) <==> has_key(known, name) || exists|j: int|
                from <= j < to && #[trigger] announces_part(lines, j, name),
    decreases to - from,
{
    if from == to {
        known
    } else {
        let named = lines[name_line(lines, from)];
        let duration = duration_text(lines[from])->0;
        let more = if is_part_line(lines[from]) && !(is_range_line(lines[from + 1]) && has_key(
            known,
            named,
        )) {
            with_entry(known, named, duration)
        } else {
            known
        };
        law_with_entry_inserts(known, named, duration);
        let mid = lemma_read_up_to(lines, from + 1, more, to);
        assert forall|name: Seq<char>| #[trigger]
            has_key(mid, name) <==> has_key(known, name) || exists|j: int|
                from <= j < to && #[trigger] announces_part(lines, j, name) by {
            assert(value_of(more, name) is Some == has_key(more, name));
            assert(value_of(known, name) is Some == has_key(known, name));
            assert(is_part_line(lines[from]) && named == name ==> announces_part(
                lines,
                from,
                name,
            ));
        }
        mid
    }
}

/// Reading further lines leaves the known parts in their places.
proof fn lemma_known_parts_keep_their_places(
    lines: Seq<Seq<char>>,
    from: int,
    known: Seq<Entry>,
    k: int,
)
    requires
        0 <= from,
        0 <= k < known.len(),
        keys_differ(known),
        parts_from(lines, from, known) is Some,
    ensures
        known.len() <= (parts_from(lines, from, known)->0).len(),
        (parts_from(lines, from, known)->0)[k].0 == known[k].0,
    decreases lines.len() - from,
{
    if from < lines.len() {
        let named = lines[name_line(lines, from)];
        if is_part_line(lines[from]) && !(is_range_line(lines[from + 1]) && has_key(known, named)) {
            let duration = duration_text(lines[from])->0;
            law_with_entry_inserts(known, named, duration);
            law_entry_keeps_its_place(known, named, duration, k);
            lemma_known_parts_keep_their_places(
                lines,
                from + 1,
                with_entry(known, named, duration),
                k,
            );
        } else {
            lemma_known_parts_keep_their_places(lines, from + 1, known, k);
        }
    }
}

/// Parts stand in the order in which the playlist announces them first.
pub proof fn law_parts_stand_in_the_order_of_the_playlist(
    playlist: Seq<char>,
    i: int,
    first: int,
    second: int,
)
    requires
        parts_listed(playlist) is Some,
        0 <= first < (parts_listed(playlist)->0).len(),
        0 <= second < (parts_listed(playlist)->0).len(),
        announces_part(lines(playlist), i, (parts_listed(playlist)->0)[first].0),
        forall|j: int|
            j <= i ==> !#[trigger] announces_part(
                lines(playlist),
                j,
                (parts_listed(playlist)->0)[second].0,
            ),
    ensures
        first < second,
{
    let all = lines(playlist);
    let none = Seq::<Entry>::empty();
    let parts = parts_listed(playlist)->0;
    let a = parts[first].0;
    let b = parts[second].0;
    let mid = lemma_read_up_to(all, 0, none, i + 1);
    assert(index_of(none, a) is None && index_of(none, b) is None);
    assert(has_key(mid, a));
    assert(!has_key(mid, b));
    lemma_index_from(mid, a, 0);
    lemma_index_from(mid, b, 0);
    let k = index_of(mid, a)->0;
    lemma_known_parts_keep_their_places(all, i + 1, mid, k);
    lemma_parts_from(all, 0, none, a);
    if first != k {
        assert(parts[first].0 == parts[k].0);
        law_keys_differ_two_by_two(parts, first, k);
    }
    if second < mid.len() {
        lemma_known_parts_keep_their_places(all, i + 1, mid, second);
        assert(mid[second].0 == b);
    }
}

/// The age that is returned with the parts of a video is counted from the time in its playlist to a
/// time that the clock was read to show: whole hours, each of 3600 seconds, and none that has not
/// passed.
pub proof fn law_age_is_counted_to_a_reading_of_the_clock(
    playlist: &str,
    result: (u64, Vec<Part>),
    created: (i64, u32),
) -> (now: UtcDateTime)
    requires
        call_ensures(get_parts, (playlist,), result),
        is_readable(playlist@),
        creation_time_text(playlist@) matches Some(time) && time_read(
            time,
            "%Y-%m-%dT%H:%M:%S%z"@,
        ) == Some(created),
    ensures
        call_ensures(UtcDateTime::now, (), now),
        nanos_between(created, now@) >= 0 ==> result.0 * 3_600_000_000_000 <= nanos_between(
            created,
            now@,
        ) < (result.0 + 1) * 3_600_000_000_000,
        nanos_between(created, now@) <= -1_000_000_000 ==> result.0 >= 24,
{
    let now = choose|now: UtcDateTime| #[trigger]
        call_ensures(UtcDateTime::now, (), now) && result.0 == unsigned_hours(
            seconds_between(created, now@),
        );
    law_seconds_are_counted_toward_zero(created, now@);
    now
}

} // verus!
