//! What searching, splitting and replacing do, and what the lines of a text are.
use vstd::prelude::*;

use crate::text::{contains, find, lines, matches_at, replace, split, starts_with};
use crate::text::{lemma_find_from, lemma_find_from_is};
use crate::text_lemmas::lemma_match_in_first;

verus! {

/// A pattern stands where its characters do, one after the other.
pub proof fn law_match_is_character_by_character(s: Seq<char>, pattern: Seq<char>, i: int)
    ensures
        matches_at(s, pattern, i) <==> {
            &&& 0 <= i
            &&& i + pattern.len() <= s.len()
            &&& forall|k: int| 0 <= k < pattern.len() ==> s[i + k] == #[trigger] pattern[k]
        },
{
    if 0 <= i && i + pattern.len() <= s.len() {
        let part = s.subrange(i, i + pattern.len());
        assert forall|k: int| 0 <= k < pattern.len() implies part[k] == s[i + k] by {}
        if forall|k: int| 0 <= k < pattern.len() ==> s[i + k] == #[trigger] pattern[k] {
            assert(part =~= pattern);
        }
        if part == pattern {
            assert forall|k: int| 0 <= k < pattern.len() implies s[i + k]
                == #[trigger] pattern[k] by {
                assert(part[k] == pattern[k]);
            }
        }
    }
}

/// A text contains what it was put together of.
pub proof fn law_text_contains_its_middle(a: Seq<char>, pattern: Seq<char>, b: Seq<char>)
    ensures
        contains(a + pattern + b, pattern),
        matches_at(a + pattern + b, pattern, a.len() as int),
{
    let s = a + pattern + b;
    assert(s.subrange(a.len() as int, a.len() as int + pattern.len()) =~= pattern);
    assert(matches_at(s, pattern, a.len() as int));
}

/// A text that contains a pattern is put together of what stands before it, the pattern, and what
/// stands behind it.
pub proof fn law_contained_pattern_has_two_sides(s: Seq<char>, pattern: Seq<char>)
    requires
        contains(s, pattern),
    ensures
        exists|i: int|
            {
                &&& 0 <= i
                &&& i + pattern.len() <= s.len()
                &&& s == #[trigger] s.take(i) + pattern + s.skip(i + pattern.len())
            },
{
    let i = choose|i: int| #[trigger] matches_at(s, pattern, i);
    assert(s =~= s.take(i) + s.subrange(i, i + pattern.len()) + s.skip(i + pattern.len()));
}

/// A text starts with a pattern if and only if the pattern is a prefix of it.
pub proof fn law_text_starts_with_its_prefix(s: Seq<char>, pattern: Seq<char>)
    ensures
        starts_with(s, pattern) <==> pattern.is_prefix_of(s),
{
    if pattern.len() <= s.len() {
        assert(s.subrange(0, pattern.len() as int) =~= s.take(pattern.len() as int));
    }
}

/// What is found is the first match.
pub proof fn law_first_match_is_found(s: Seq<char>, pattern: Seq<char>, i: int)
    ensures
        find(s, pattern) == Some(i) <==> {
            &&& 0 <= i
            &&& matches_at(s, pattern, i)
            &&& forall|j: int| 0 <= j < i ==> !#[trigger] matches_at(s, pattern, j)
        },
        find(s, pattern) is None <==> forall|j: int| !#[trigger] matches_at(s, pattern, j),
{
    lemma_find_from(s, pattern, 0);
    if 0 <= i && matches_at(s, pattern, i) && forall|j: int|
        0 <= j < i ==> !#[trigger] matches_at(s, pattern, j) {
        lemma_find_from_is(s, pattern, 0, i);
    }
}

/// The first match in `a + pattern + b`, where none begins in `a`, is the one behind `a`.
proof fn lemma_first_match_behind(a: Seq<char>, pattern: Seq<char>, b: Seq<char>)
    requires
        forall|j: int| 0 <= j < a.len() ==> !#[trigger] matches_at(a + pattern + b, pattern, j),
    ensures
        find(a + pattern + b, pattern) == Some(a.len() as int),
        (a + pattern + b).take(a.len() as int) == a,
        (a + pattern + b).skip(a.len() as int + pattern.len()) == b,
{
    let s = a + pattern + b;
    law_text_contains_its_middle(a, pattern, b);
    lemma_find_from_is(s, pattern, 0, a.len() as int);
    assert(s.take(a.len() as int) =~= a);
    assert(s.skip(a.len() as int + pattern.len()) =~= b);
}

/// A text without a match is one piece, and replacing leaves it as it is.
pub proof fn law_text_without_a_match_stays_whole(
    s: Seq<char>,
    pattern: Seq<char>,
    to: Seq<char>,
)
    requires
        pattern.len() > 0,
        forall|j: int| !#[trigger] matches_at(s, pattern, j),
    ensures
        split(s, pattern) == seq![s],
        replace(s, pattern, to) == s,
{
    law_first_match_is_found(s, pattern, 0);
}

/// The first piece of a text is what stands before the first match, and the others are the pieces
/// of what stands behind it.
pub proof fn law_text_is_split_at_its_first_match(
    a: Seq<char>,
    pattern: Seq<char>,
    b: Seq<char>,
)
    requires
        pattern.len() > 0,
        forall|j: int| 0 <= j < a.len() ==> !#[trigger] matches_at(a + pattern + b, pattern, j),
    ensures
        split(a + pattern + b, pattern) == seq![a] + split(b, pattern),
{
    lemma_first_match_behind(a, pattern, b);
}

/// Replacing keeps what stands before the first match, puts the new text in the place of the match,
/// and goes on behind it.
pub proof fn law_first_match_is_replaced(
    a: Seq<char>,
    from: Seq<char>,
    b: Seq<char>,
    to: Seq<char>,
)
    requires
        from.len() > 0,
        forall|j: int| 0 <= j < a.len() ==> !#[trigger] matches_at(a + from + b, from, j),
    ensures
        replace(a + from + b, from, to) == a + to + replace(b, from, to),
{
    lemma_first_match_behind(a, from, b);
}

/// An empty text has no lines.
pub proof fn law_empty_text_has_no_lines()
    ensures
        lines(Seq::<char>::empty()).len() == 0,
{
}

/// Without a line feed, a text that is not empty is one line.
pub proof fn law_text_without_line_feed_is_one_line(line: Seq<char>)
    requires
        line.len() > 0,
        !line.contains('\n'),
    ensures
        lines(line) == seq![line],
{
    lemma_no_line_feed(line);
}

/// In a text without a line feed none is found.
proof fn lemma_no_line_feed(line: Seq<char>)
    requires
        !line.contains('\n'),
    ensures
        find(line, seq!['\n']) is None,
{
    lemma_find_from(line, seq!['\n'], 0);
    if let Some(i) = find(line, seq!['\n']) {
        assert(line.subrange(i, i + 1)[0] == line[i]);
        assert(line.contains(line[i]));
    }
}

/// The first line of a text is cut at the first line feed.
proof fn lemma_first_line_feed(line: Seq<char>, rest: Seq<char>)
    requires
        !line.contains('\n'),
    ensures
        find(line + seq!['\n'] + rest, seq!['\n']) == Some(line.len() as int),
        (line + seq!['\n'] + rest).take(line.len() as int) == line,
        (line + seq!['\n'] + rest).skip(line.len() as int + 1) == rest,
{
    let feed = seq!['\n'];
    let s = line + feed + rest;
    assert forall|j: int| 0 <= j < line.len() implies !#[trigger] matches_at(s, feed, j) by {
        if matches_at(s, feed, j) {
            assert(s.subrange(j, j + 1)[0] == line[j]);
            assert(line.contains(line[j]));
        }
    }
    lemma_first_match_behind(line, feed, rest);
}

/// A line ends at a line feed, and what follows are the lines of the rest.
pub proof fn law_line_feed_ends_a_line(line: Seq<char>, rest: Seq<char>)
    requires
        !line.contains('\n'),
        line.len() > 0 ==> line.last() != '\r',
    ensures
        lines(line + seq!['\n'] + rest) == seq![line] + lines(rest),
{
    lemma_first_line_feed(line, rest);
}

/// A carriage return before the line feed belongs to the ending of the line.
pub proof fn law_carriage_return_and_line_feed_end_a_line(line: Seq<char>, rest: Seq<char>)
    requires
        !line.contains('\n'),
    ensures
        lines(line + seq!['\r', '\n'] + rest) == seq![line] + lines(rest),
{
    let ended = line.push('\r');
    assert(!ended.contains('\n')) by {
        if ended.contains('\n') {
            let i = choose|i: int| 0 <= i < ended.len() && ended[i] == '\n';
            assert(line.contains(line[i]));
        }
    }
    assert(line + seq!['\r', '\n'] + rest =~= ended + seq!['\n'] + rest);
    lemma_first_line_feed(ended, rest);
    assert(ended.drop_last() =~= line);
}

/// Texts, each with one more behind it, put together with `separator` between them.
pub open spec fn joined(pieces: Seq<Seq<char>>, separator: Seq<char>) -> Seq<char>
    decreases pieces.len(),
{
    if pieces.len() == 0 {
        seq![]
    } else if pieces.len() == 1 {
        pieces[0]
    } else {
        pieces[0] + separator + joined(pieces.drop_first(), separator)
    }
}

/// The pieces of a text, put together with the pattern between them, are the text; put together
/// with another text between them, they are the text with the pattern replaced.
pub proof fn law_pieces_make_up_the_text(s: Seq<char>, pattern: Seq<char>, to: Seq<char>)
    requires
        pattern.len() > 0,
    ensures
        split(s, pattern).len() > 0,
        joined(split(s, pattern), pattern) == s,
        joined(split(s, pattern), to) == replace(s, pattern, to),
    decreases s.len(),
{
    lemma_find_from(s, pattern, 0);
    match find(s, pattern) {
        None => {},
        Some(i) => {
            let rest = s.skip(i + pattern.len());
            law_pieces_make_up_the_text(rest, pattern, to);
            let pieces = split(s, pattern);
            assert(pieces.drop_first() =~= split(rest, pattern));
            assert(s =~= s.take(i) + pattern + rest);
        },
    }
}

/// No piece of a text contains the pattern that the text was split at.
pub proof fn law_no_piece_contains_the_pattern(s: Seq<char>, pattern: Seq<char>, k: int)
    requires
        pattern.len() > 0,
        0 <= k < split(s, pattern).len(),
    ensures
        !contains(split(s, pattern)[k], pattern),
    decreases s.len(),
{
    lemma_find_from(s, pattern, 0);
    match find(s, pattern) {
        None => {},
        Some(i) => {
            let rest = s.skip(i + pattern.len());
            if k > 0 {
                law_no_piece_contains_the_pattern(rest, pattern, k - 1);
                assert(split(s, pattern)[k] == split(rest, pattern)[k - 1]);
            } else {
                let head = s.take(i);
                assert(s =~= head + s.skip(i));
                assert forall|j: int| !#[trigger] matches_at(head, pattern, j) by {
                    if matches_at(head, pattern, j) {
                        lemma_match_in_first(head, s.skip(i), pattern, j);
                    }
                }
            }
        },
    }
}

} // verus!
