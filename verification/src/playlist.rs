//! The playlist that lists the qualities of a video.
use vstd::prelude::*;

use crate::table::{has_key, index_of, lemma_has_key_of_push, lemma_index_from, value_of};
use crate::table::{Entry, Table};
use crate::text::{contains, find, lemma_find_from, lines, matches_at, split, views};
use crate::text::{has_match, pieces, rows_of, to_chars, to_text};
use crate::text_laws::{law_match_is_character_by_character, law_text_is_split_at_its_first_match};
use crate::text_laws::law_text_without_a_match_stays_whole;
use crate::text_lemmas::{lemma_absent, lemma_split_in_two};

verus! {

/// Whether a line announces a quality.
pub open spec fn is_media_line(line: Seq<char>) -> bool {
    contains(line, "#EXT-X-MEDIA"@)
}

/// The name of the quality that a line announces: what stands behind the first `NAME="` up to
/// the next one or the next quotation mark.
pub open spec fn quality_name(line: Seq<char>) -> Option<Seq<char>> {
    let parts = split(line, "NAME=\""@);
    if parts.len() < 2 {
        None
    } else {
        Some(split(parts[1], "\""@)[0])
    }
}

/// The qualities that the lines from `i` on add to the ones in `known`, each with the line two
/// below, which is its address. A quality keeps the address under which it came first. There is
/// no result where a line announces a quality without a name, or one without an address.
pub open spec fn qualities_from(lines: Seq<Seq<char>>, i: int, known: Seq<Entry>) -> Option<
    Seq<Entry>,
>
    decreases lines.len() - i,
{
    if i >= lines.len() {
        Some(known)
    } else if !is_media_line(lines[i]) {
        qualities_from(lines, i + 1, known)
    } else {
        match quality_name(lines[i]) {
            None => None,
            Some(name) => if has_key(known, name) {
                qualities_from(lines, i + 1, known)
            } else if i + 2 >= lines.len() {
                None
            } else {
                qualities_from(lines, i + 1, known.push((name, lines[i + 2])))
            },
        }
    }
}

/// The qualities that a playlist lists, each with its address, in the order of the playlist.
pub open spec fn qualities(playlist: Seq<char>) -> Option<Seq<Entry>> {
    qualities_from(lines(playlist), 0, seq![])
}

/// Whether a playlist can be read and lists at least one quality.
pub open spec fn lists_qualities(playlist: Seq<char>) -> bool {
    qualities(playlist) matches Some(entries) && entries.len() > 0
}

/// The address of the quality `quality` of those in `entries`, or else of the first.
pub open spec fn address_of(entries: Seq<Entry>, quality: Seq<char>) -> Seq<char> {
    match value_of(entries, quality) {
        Some(address) => address,
        None => entries[0].1,
    }
}

/// The quality that was chosen of those in a playlist.
#[derive(Debug)]
pub struct Selection {
    /// The address of the playlist of the chosen quality.
    pub url: String,
    /// The name of the chosen quality, where it is not the one that was asked for.
    pub fallback: Option<String>,
}

/// Whether `selection` is what is chosen of `entries` where `quality` is asked for.
pub open spec fn is_choice(
    entries: Seq<Entry>,
    quality: Seq<char>,
    selection: Selection,
) -> bool {
    &&& selection.url@ == address_of(entries, quality)
    &&& match selection.fallback {
        Some(name) => !has_key(entries, quality) && name@ == entries[0].0,
        None => has_key(entries, quality),
    }
}

/// The name of the quality that a line announces.
fn name_of(line: &Vec<char>) -> (name: Option<String>)
    ensures
        match name {
            Some(name) => quality_name(line@) == Some(name@),
            None => quality_name(line@) is None,
        },
{
    proof {
        reveal_strlit("NAME=\"");
        reveal_strlit("\"");
    }
    let parts = pieces(line, &to_chars("NAME=\""));
    assert(views(parts@).len() == parts@.len());
    if parts.len() < 2 {
        return None;
    }
    assert(views(parts@)[1] == parts@[1]@);
    let names = pieces(&parts[1], &to_chars("\""));
    assert(views(names@).len() == names@.len());
    assert(split(parts@[1]@, "\""@).len() > 0);
    assert(views(names@)[0] == names@[0]@);
    Some(to_text(&names[0]))
}

/// The qualities that a playlist lists, each with its address.
fn read_qualities(playlist: &str) -> (table: Option<Table>)
    ensures
        match table {
            Some(table) => qualities(playlist@) == Some(table@),
            None => qualities(playlist@) is None,
        },
{
    proof {
        reveal_strlit("#EXT-X-MEDIA");
    }
    let rows = rows_of(&to_chars(playlist));
    let tag = to_chars("#EXT-X-MEDIA");
    let mut table = Table::new();
    let mut i: usize = 0;
    while i < rows.len()
        invariant
            i <= rows@.len(),
            views(rows@) == lines(playlist@),
            views(rows@).len() == rows@.len(),
            forall|j: int| 0 <= j < rows@.len() ==> views(rows@)[j] == #[trigger] rows@[j]@,
            tag@ == "#EXT-X-MEDIA"@,
            tag@.len() > 0,
            qualities(playlist@) == qualities_from(views(rows@), i as int, table@),
        decreases rows@.len() - i,
    {
        if has_match(&rows[i], &tag) {
            match name_of(&rows[i]) {
                None => {
                    return None;
                },
                Some(name) => {
                    if table.position(&name).is_none() {
                        if rows.len() - i <= 2 {
                            return None;
                        }
                        table.insert(name, to_text(&rows[i + 2]));
                    }
                },
            }
        }
        i = i + 1;
    }
    Some(table)
}

/// Chooses the quality `quality` of those that a playlist lists, or the first one where it does
/// not list that quality.
pub fn select_quality(playlist: &str, quality: &str) -> (selection: Selection)
    requires
        lists_qualities(playlist@),
    ensures
        is_choice(qualities(playlist@)->0, quality@, selection),
        is_chosen_by_lines(lines(playlist@), quality@, selection.url@, selection.fallback),
{
    proof {
        lemma_choice_is_by_lines(playlist@, quality@);
    }
    let table = read_qualities(playlist).unwrap();
    let selection = match table.position(&String::from(quality)) {
        Some(i) => Selection { url: table.value(i).clone(), fallback: None },
        None => Selection { url: table.value(0).clone(), fallback: Some(table.key(0).clone()) },
    };
    assert(is_choice(qualities(playlist@)->0, quality@, selection));
    selection
}

/// Chooses a quality where the playlist can be read and lists one, and nothing elsewhere.
pub fn try_select_quality(playlist: &str, quality: &str) -> (selection: Option<Selection>)
    ensures
        match selection {
            Some(selection) => lists_qualities(playlist@) && is_choice(
                qualities(playlist@)->0,
                quality@,
                selection,
            ),
            None => !lists_qualities(playlist@),
        },
        selection matches Some(selection) ==> is_chosen_by_lines(
            lines(playlist@),
            quality@,
            selection.url@,
            selection.fallback,
        ),
{
    match read_qualities(playlist) {
        Some(table) => if table.len() > 0 {
            Some(select_quality(playlist, quality))
        } else {
            None
        },
        None => None,
    }
}

/// Whether the line `i` announces the quality `name`.
pub open spec fn announces(lines: Seq<Seq<char>>, i: int, name: Seq<char>) -> bool {
    &&& 0 <= i < lines.len()
    &&& is_media_line(lines[i])
    &&& quality_name(lines[i]) == Some(name)
}

/// Reading further lines keeps the known qualities, and a quality is known in the end if it was
/// known before or one of those lines announces it; it then has the address below the first such
/// line.
proof fn lemma_qualities_from(
    lines: Seq<Seq<char>>,
    i: int,
    known: Seq<Entry>,
    name: Seq<char>,
)
    requires
        0 <= i,
        qualities_from(lines, i, known) is Some,
    ensures
        ({
            let entries = qualities_from(lines, i, known)->0;
            &&& known.len() <= entries.len()
            &&& entries.take(known.len() as int) == known
            &&& value_of(known, name) is Some ==> value_of(entries, name) == value_of(known, name)
            &&& value_of(known, name) is None ==> match value_of(entries, name) {
                Some(address) => exists|j: int|
                    {
                        &&& i <= j
                        &&& #[trigger] announces(lines, j, name)
                        &&& forall|k: int| i <= k < j ==> !#[trigger] announces(lines, k, name)
                        &&& j + 2 < lines.len()
                        &&& address == lines[j + 2]
                    },
                None => forall|j: int| i <= j ==> !#[trigger] announces(lines, j, name),
            }
        }),
    decreases lines.len() - i,
{
    let entries = qualities_from(lines, i, known)->0;
    if i >= lines.len() {
        assert(entries.take(known.len() as int) == known);
    } else if announces(lines, i, name) && !has_key(known, name) {
        let more = known.push((name, lines[i + 2]));
        lemma_qualities_from(lines, i + 1, more, name);
        lemma_index_from(known, name, 0);
        lemma_index_from(more, name, 0);
        assert(more[known.len() as int].0 == name);
        assert(value_of(more, name) == Some(lines[i + 2]));
        assert(entries.take(known.len() as int) == entries.take(more.len() as int).take(
            known.len() as int,
        ));
    } else if is_media_line(lines[i]) && !has_key(known, quality_name(lines[i])->0) {
        let other = quality_name(lines[i])->0;
        let more = known.push((other, lines[i + 2]));
        lemma_qualities_from(lines, i + 1, more, name);
        lemma_index_from(known, name, 0);
        lemma_index_from(known, other, 0);
        lemma_index_from(more, name, 0);
        if let Some(k) = index_of(known, name) {
            assert(more[k].0 == name);
        }
        if let Some(k) = index_of(more, name) {
            assert(more[k].0 == name);
            assert(k < known.len() ==> known[k].0 == name);
        }
        assert(value_of(more, name) == value_of(known, name));
        assert(entries.take(known.len() as int) == entries.take(more.len() as int).take(
            known.len() as int,
        ));
    } else {
        lemma_qualities_from(lines, i + 1, known, name);
    }
}

/// Whether the line `i` can be read if it announces a quality: the quality has a name, and an
/// address two lines below unless an earlier line announces it.
pub open spec fn is_complete(lines: Seq<Seq<char>>, i: int) -> bool {
    is_media_line(lines[i]) ==> {
        &&& quality_name(lines[i]) is Some
        &&& i + 2 < lines.len() || exists|j: int|
            0 <= j < i && #[trigger] announces(lines, j, quality_name(lines[i])->0)
    }
}

/// Whether the line `i` can be read if it announces a quality, where the lines from `from` on are
/// read and `known` are the qualities before them.
spec fn is_complete_from(lines: Seq<Seq<char>>, from: int, known: Seq<Entry>, i: int) -> bool {
    is_media_line(lines[i]) ==> {
        &&& quality_name(lines[i]) is Some
        &&& i + 2 < lines.len() || has_key(known, quality_name(lines[i])->0) || exists|j: int|
            from <= j < i && #[trigger] announces(lines, j, quality_name(lines[i])->0)
    }
}

/// Lines can be read together if and only if they can be read one by one.
proof fn lemma_complete_lines_are_read(lines: Seq<Seq<char>>, from: int, known: Seq<Entry>)
    requires
        0 <= from,
    ensures
        qualities_from(lines, from, known) is Some <==> forall|i: int|
            from <= i < lines.len() ==> #[trigger] is_complete_from(lines, from, known, i),
    decreases lines.len() - from,
{
    if from < lines.len() {
        let next = from + 1;
        let name = quality_name(lines[from])->0;
        let more = if is_media_line(lines[from]) && !has_key(known, name) {
            known.push((name, lines[from + 2]))
        } else {
            known
        };
        let here = is_complete_from(lines, from, known, from);
        if here {
            lemma_complete_lines_are_read(lines, next, more);
            assert forall|i: int|
                #![trigger is_complete_from(lines, from, known, i)]
                #![trigger is_complete_from(lines, next, more, i)]
                from < i < lines.len() implies is_complete_from(lines, from, known, i)
                == is_complete_from(lines, next, more, i) by {
                let other = quality_name(lines[i])->0;
                assert(announces(lines, from, other) == (is_media_line(lines[from]) && other
                    == name));
                lemma_has_key_of_push(known, name, lines[from + 2], other);
            }
        }
    }
}

/// A playlist can be read and lists a quality if and only if a line announces one, and each line
/// that does can be read.
pub proof fn law_complete_playlist_lists_qualities(playlist: Seq<char>)
    ensures
        lists_qualities(playlist) <==> {
            &&& exists|i: int|
                0 <= i < lines(playlist).len() && is_media_line(#[trigger] lines(playlist)[i])
            &&& forall|i: int|
                0 <= i < lines(playlist).len() ==> #[trigger] is_complete(lines(playlist), i)
        },
{
    let all = lines(playlist);
    let none = Seq::<Entry>::empty();
    lemma_complete_lines_are_read(all, 0, none);
    assert forall|i: int|
        #![trigger is_complete(all, i)]
        #![trigger is_complete_from(all, 0, none, i)]
        0 <= i < all.len() implies is_complete(all, i) == is_complete_from(all, 0, none, i) by {
        assert(index_of(none, quality_name(all[i])->0) is None);
    }
    if qualities(playlist) is Some {
        if exists|i: int| 0 <= i < all.len() && is_media_line(#[trigger] all[i]) {
            let i = choose|i: int| 0 <= i < all.len() && is_media_line(#[trigger] all[i]);
            assert(is_complete_from(all, 0, none, i));
            let name = quality_name(all[i])->0;
            assert(announces(all, i, name));
            assert(index_of(none, name) is None);
            lemma_qualities_from(all, 0, none, name);
            lemma_index_from(qualities(playlist)->0, name, 0);
        } else {
            lemma_skips_other_lines(all, 0, all.len() as int, none);
        }
    }
}

/// A playlist can be read and lists a quality where a line announces one, and each line that does
/// gives it a name and has two lines below.
pub proof fn law_named_qualities_with_addresses_are_listed(playlist: Seq<char>, i: int)
    requires
        0 <= i < lines(playlist).len(),
        is_media_line(lines(playlist)[i]),
        forall|j: int|
            0 <= j < lines(playlist).len() && is_media_line(#[trigger] lines(playlist)[j])
                ==> quality_name(lines(playlist)[j]) is Some && j + 2 < lines(playlist).len(),
    ensures
        lists_qualities(playlist),
{
    law_complete_playlist_lists_qualities(playlist);
    assert forall|j: int| 0 <= j < lines(playlist).len() implies #[trigger] is_complete(
        lines(playlist),
        j,
    ) by {
        assert(is_media_line(lines(playlist)[j]) ==> quality_name(lines(playlist)[j]) is Some);
    }
}

/// A playlist lists no quality where no line announces one, where one is announced without a name,
/// or where the first line that announces one has fewer than two lines below.
pub proof fn law_incomplete_playlist_lists_nothing(playlist: Seq<char>, i: int, name: Seq<char>)
    requires
        ({
            let all = lines(playlist);
            ||| forall|j: int| 0 <= j < all.len() ==> !is_media_line(#[trigger] all[j])
            ||| 0 <= i < all.len() && is_media_line(all[i]) && quality_name(all[i]) is None
            ||| {
                &&& announces(all, i, name)
                &&& forall|j: int| 0 <= j < i ==> !#[trigger] announces(all, j, name)
                &&& i + 2 >= all.len()
            }
        }),
    ensures
        !lists_qualities(playlist),
{
    law_complete_playlist_lists_qualities(playlist);
    if lists_qualities(playlist) && 0 <= i < lines(playlist).len() {
        assert(is_complete(lines(playlist), i));
    }
}

/// A quality that the playlist lists is chosen with the address two lines below the first line
/// that announces it.
pub proof fn law_listed_quality_is_chosen(playlist: Seq<char>, quality: Seq<char>, i: int)
    requires
        lists_qualities(playlist),
        announces(lines(playlist), i, quality),
        forall|j: int| 0 <= j < i ==> !#[trigger] announces(lines(playlist), j, quality),
    ensures
        has_key(qualities(playlist)->0, quality),
        i + 2 < lines(playlist).len(),
        address_of(qualities(playlist)->0, quality) == lines(playlist)[i + 2],
{
    lemma_qualities_from(lines(playlist), 0, seq![], quality);
}

/// Where the playlist does not list a quality, the one that it lists first is chosen.
pub proof fn law_unlisted_quality_falls_back_to_the_first(
    playlist: Seq<char>,
    quality: Seq<char>,
    i: int,
)
    requires
        lists_qualities(playlist),
        forall|j: int| !#[trigger] announces(lines(playlist), j, quality),
        0 <= i < lines(playlist).len(),
        is_media_line(lines(playlist)[i]),
        forall|j: int| 0 <= j < i ==> !is_media_line(#[trigger] lines(playlist)[j]),
    ensures
        !has_key(qualities(playlist)->0, quality),
        quality_name(lines(playlist)[i]) == Some((qualities(playlist)->0)[0].0),
        i + 2 < lines(playlist).len(),
        address_of(qualities(playlist)->0, quality) == lines(playlist)[i + 2],
{
    let all = lines(playlist);
    let none = Seq::<Entry>::empty();
    lemma_qualities_from(all, 0, none, quality);
    lemma_skips_other_lines(all, 0, i, none);
    let first = quality_name(all[i])->0;
    let one = none.push((first, all[i + 2]));
    assert(index_of(none, first) is None);
    lemma_qualities_from(all, i + 1, one, quality);
    let entries = qualities(playlist)->0;
    assert(entries.take(1)[0] == entries[0]);
}

/// Lines that announce nothing add nothing.
proof fn lemma_skips_other_lines(lines: Seq<Seq<char>>, i: int, to: int, known: Seq<Entry>)
    requires
        0 <= i <= to <= lines.len(),
        forall|j: int| i <= j < to ==> !is_media_line(#[trigger] lines[j]),
    ensures
        qualities_from(lines, i, known) == qualities_from(lines, to, known),
    decreases to - i,
{
    if i < to {
        lemma_skips_other_lines(lines, i + 1, to, known);
    }
}

/// Whether `url` is the address that lines give for a quality, and `fallback` the name of the
/// quality that was chosen in its place: the address two lines below the first line that announces
/// the quality; or else, where no line does, below the first line that announces any.
pub open spec fn is_chosen_by_lines(
    lines: Seq<Seq<char>>,
    quality: Seq<char>,
    url: Seq<char>,
    fallback: Option<String>,
) -> bool {
    &&& forall|i: int|
        #![trigger lines[i]]
        {
            &&& 0 <= i < lines.len()
            &&& is_media_line(lines[i])
            &&& quality_name(lines[i]) == Some(quality)
            &&& forall|j: int|
                0 <= j < i && is_media_line(#[trigger] lines[j]) ==> quality_name(lines[j]) != Some(
                    quality,
                )
        } ==> i + 2 < lines.len() && url == lines[i + 2] && fallback is None
    &&& forall|i: int|
        #![trigger lines[i]]
        {
            &&& 0 <= i < lines.len()
            &&& is_media_line(lines[i])
            &&& forall|j: int| 0 <= j < i ==> !is_media_line(#[trigger] lines[j])
            &&& forall|j: int|
                0 <= j < lines.len() && is_media_line(#[trigger] lines[j]) ==> quality_name(
                    lines[j],
                ) != Some(quality)
        } ==> i + 2 < lines.len() && url == lines[i + 2] && (fallback matches Some(name)
            && quality_name(lines[i]) == Some(name@))
}

/// A choice among the qualities of a playlist is one by its lines.
proof fn lemma_choice_is_by_lines(playlist: Seq<char>, quality: Seq<char>)
    requires
        lists_qualities(playlist),
    ensures
        forall|selection: Selection| #[trigger]
            is_choice(qualities(playlist)->0, quality, selection) ==> is_chosen_by_lines(
                lines(playlist),
                quality,
                selection.url@,
                selection.fallback,
            ),
{
    let all = lines(playlist);
    assert forall|selection: Selection| #[trigger]
        is_choice(qualities(playlist)->0, quality, selection) implies is_chosen_by_lines(
        all,
        quality,
        selection.url@,
        selection.fallback,
    ) by {
        assert forall|i: int|
            #![trigger all[i]]
            {
                &&& 0 <= i < all.len()
                &&& is_media_line(all[i])
                &&& quality_name(all[i]) == Some(quality)
                &&& forall|j: int|
                    0 <= j < i && is_media_line(#[trigger] all[j]) ==> quality_name(all[j]) != Some(
                        quality,
                    )
            } implies i + 2 < all.len() && selection.url@ == all[i + 2]
            && selection.fallback is None by {
            assert forall|j: int| 0 <= j < i implies !#[trigger] announces(all, j, quality) by {
                assert(is_media_line(all[j]) ==> quality_name(all[j]) != Some(quality));
            }
            law_listed_quality_is_chosen(playlist, quality, i);
        }
        assert forall|i: int|
            #![trigger all[i]]
            {
                &&& 0 <= i < all.len()
                &&& is_media_line(all[i])
                &&& forall|j: int| 0 <= j < i ==> !is_media_line(#[trigger] all[j])
                &&& forall|j: int|
                    0 <= j < all.len() && is_media_line(#[trigger] all[j]) ==> quality_name(all[j])
                        != Some(quality)
            } implies i + 2 < all.len() && selection.url@ == all[i + 2]
            && (selection.fallback matches Some(name) && quality_name(all[i]) == Some(name@)) by {
            assert forall|j: int| !#[trigger] announces(all, j, quality) by {
                if 0 <= j < all.len() {
                    assert(is_media_line(all[j]) ==> quality_name(all[j]) != Some(quality));
                }
            }
            law_unlisted_quality_falls_back_to_the_first(playlist, quality, i);
        }
    }
}

/// A line announces a quality if it holds the tag for that, wherever in the line the tag stands.
pub proof fn law_media_line_is_known_by_its_tag(line: Seq<char>)
    ensures
        is_media_line(line) <==> exists|i: int| #[trigger] matches_at(line, "#EXT-X-MEDIA"@, i),
{
}

/// A line announces a quality by the name in it.
pub proof fn law_line_announces_the_quality_in_it(
    lines: Seq<Seq<char>>,
    i: int,
    name: Seq<char>,
)
    requires
        0 <= i < lines.len(),
    ensures
        announces(lines, i, name) <==> is_media_line(lines[i]) && quality_name(lines[i]) == Some(
            name,
        ),
{
}

/// What is chosen has the address of the quality that was asked for, and no other name; where that
/// quality is not listed, it has the address and the name of the first.
pub proof fn law_choice_has_the_address_of_its_quality(
    entries: Seq<Entry>,
    quality: Seq<char>,
    selection: Selection,
    i: int,
)
    requires
        is_choice(entries, quality, selection),
        entries.len() > 0,
        0 <= i < entries.len(),
    ensures
        entries[i].0 == quality ==> selection.fallback is None,
        entries[i].0 == quality && (forall|j: int|
            0 <= j < i ==> (#[trigger] entries[j]).0 != quality) ==> selection.url@
            == entries[i].1,
        (forall|j: int| 0 <= j < entries.len() ==> (#[trigger] entries[j]).0 != quality)
            ==> selection.url@ == entries[0].1 && (selection.fallback matches Some(name) && name@
            == entries[0].0),
{
    lemma_index_from(entries, quality, 0);
}

/// The mark of a name begins nowhere within itself, so it stands behind `head` for the first time
/// if it does not stand in `head`.
proof fn lemma_first_name_mark(head: Seq<char>, tail: Seq<char>)
    requires
        forall|j: int| !#[trigger] matches_at(head, "NAME=\""@, j),
    ensures
        split(head + "NAME=\""@ + tail, "NAME=\""@) == seq![head] + split(tail, "NAME=\""@),
{
    reveal_strlit("NAME=\"");
    let mark = "NAME=\""@;
    let s = head + mark + tail;
    assert forall|j: int| 0 <= j < head.len() implies !#[trigger] matches_at(s, mark, j) by {
        if matches_at(s, mark, j) {
            law_match_is_character_by_character(s, mark, j);
            if j + mark.len() <= head.len() {
                assert(head.subrange(j, j + mark.len()) =~= s.subrange(j, j + mark.len()));
                assert(matches_at(head, mark, j));
            } else {
                let k = head.len() - j;
                assert(s[j + k] == mark[k]);
                assert(s[head.len() as int] == mark[0]);
            }
        }
    }
    law_text_is_split_at_its_first_match(head, mark, tail);
}

/// A text without a quotation mark, with one behind it, is cut there.
proof fn lemma_first_quotation_mark(name: Seq<char>, tail: Seq<char>)
    requires
        !name.contains('"'),
    ensures
        split(name, "\""@) == seq![name],
        split(name + "\""@ + tail, "\""@)[0] == name,
{
    reveal_strlit("\"");
    let quote = "\""@;
    lemma_absent(name, quote, ""@);
    let s = name + quote + tail;
    assert forall|j: int| 0 <= j < name.len() implies !#[trigger] matches_at(s, quote, j) by {
        if matches_at(s, quote, j) {
            assert(s.subrange(j, j + 1)[0] == name[j]);
            assert(name.contains(name[j]));
        }
    }
    law_text_is_split_at_its_first_match(name, quote, tail);
}

/// The name of a quality stands between the mark of a name and the next quotation mark, whatever
/// stands before the mark and behind the quotation mark.
pub proof fn law_quality_name_stands_in_quotation_marks(
    head: Seq<char>,
    name: Seq<char>,
    tail: Seq<char>,
)
    requires
        forall|j: int| !#[trigger] matches_at(head, "NAME=\""@, j),
        !name.contains('"'),
        !("NAME="@).is_suffix_of(name),
    ensures
        quality_name(head + "NAME=\""@ + name + "\""@ + tail) == Some(name),
{
    reveal_strlit("NAME=\"");
    reveal_strlit("NAME=");
    reveal_strlit("\"");
    let mark = "NAME=\""@;
    let quote = "\""@;
    let rest = name + quote + tail;
    assert(head + mark + name + quote + tail =~= head + mark + rest);
    lemma_first_name_mark(head, rest);
    lemma_find_from(rest, mark, 0);
    if let Some(i) = find(rest, mark) {
        law_match_is_character_by_character(rest, mark, i);
        if i <= name.len() {
            if i + 5 < name.len() {
                assert(rest[i + 5] == mark[5]);
                assert(name.contains(name[i + 5]));
            } else if i + 5 == name.len() {
                assert forall|k: int| 0 <= k < 5 implies name[i + k] == ("NAME="@)[k] by {
                    assert(rest[i + k] == mark[k]);
                }
                assert(name.skip(i) =~= "NAME="@);
                assert(("NAME="@).is_suffix_of(name));
            } else {
                let k = name.len() - i;
                assert(rest[i + k] == mark[k]);
            }
        }
        let piece = rest.take(i);
        let left = piece.skip(name.len() as int + 1);
        assert(piece =~= name + quote + left);
        lemma_first_quotation_mark(name, left);
    } else {
        lemma_first_quotation_mark(name, tail);
    }
}

/// A name that no quotation mark ends is what is left of the line.
pub proof fn law_quality_name_may_end_with_the_line(head: Seq<char>, name: Seq<char>)
    requires
        forall|j: int| !#[trigger] matches_at(head, "NAME=\""@, j),
        !name.contains('"'),
    ensures
        quality_name(head + "NAME=\""@ + name) == Some(name),
{
    reveal_strlit("NAME=\"");
    lemma_first_name_mark(head, name);
    lemma_no_name_mark(name);
    law_text_without_a_match_stays_whole(name, "NAME=\""@, ""@);
    lemma_first_quotation_mark(name, ""@);
}

/// A text without a quotation mark does not hold the mark of a name.
proof fn lemma_no_name_mark(s: Seq<char>)
    requires
        !s.contains('"'),
    ensures
        forall|j: int| !#[trigger] matches_at(s, "NAME=\""@, j),
{
    reveal_strlit("NAME=\"");
    assert forall|j: int| !#[trigger] matches_at(s, "NAME=\""@, j) by {
        if matches_at(s, "NAME=\""@, j) {
            law_match_is_character_by_character(s, "NAME=\""@, j);
            assert(s[j + 5] == ("NAME=\""@)[5]);
            assert(s.contains(s[j + 5]));
        }
    }
}

/// A name ends where the mark of a name stands again.
pub proof fn law_quality_name_ends_at_the_next_mark(
    head: Seq<char>,
    name: Seq<char>,
    tail: Seq<char>,
)
    requires
        forall|j: int| !#[trigger] matches_at(head, "NAME=\""@, j),
        !name.contains('"'),
    ensures
        quality_name(head + "NAME=\""@ + name + "NAME=\""@ + tail) == Some(name),
{
    reveal_strlit("NAME=\"");
    let mark = "NAME=\""@;
    assert(head + mark + name + mark + tail =~= head + mark + (name + mark + tail));
    lemma_first_name_mark(head, name + mark + tail);
    lemma_no_name_mark(name);
    lemma_first_name_mark(name, tail);
    lemma_first_quotation_mark(name, ""@);
}

/// A line without the mark of a name gives no name, and a line with it gives one.
pub proof fn law_quality_name_needs_its_mark(line: Seq<char>)
    ensures
        quality_name(line) is Some <==> exists|j: int| #[trigger] matches_at(line, "NAME=\""@, j),
{
    reveal_strlit("NAME=\"");
    if exists|j: int| #[trigger] matches_at(line, "NAME=\""@, j) {
        lemma_split_in_two(line, "NAME=\""@);
    } else {
        law_text_without_a_match_stays_whole(line, "NAME=\""@, ""@);
    }
}

} // verus!
