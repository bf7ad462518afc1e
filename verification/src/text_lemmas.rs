//! How searching, splitting and replacing treat texts that are joined together.
use vstd::prelude::*;

use crate::text::{contains, find, matches_at, replace, split};
use crate::text::{lemma_find_from, lemma_find_from_is};

verus! {

/// Whether a match of `pattern` begins in `a` and ends in the `b` that follows it.
pub open spec fn straddled(a: Seq<char>, b: Seq<char>, pattern: Seq<char>) -> bool {
    exists|i: int|
        0 <= i < a.len() && i + pattern.len() > a.len() && #[trigger] matches_at(a + b, pattern, i)
}

/// A match that lies in the first of two texts is a match in both together.
pub proof fn lemma_match_in_first(a: Seq<char>, b: Seq<char>, pattern: Seq<char>, i: int)
    requires
        i + pattern.len() <= a.len(),
    ensures
        matches_at(a + b, pattern, i) == matches_at(a, pattern, i),
{
    if 0 <= i {
        assert((a + b).subrange(i, i + pattern.len()) == a.subrange(i, i + pattern.len()));
    }
}

/// A match that lies in the second of two texts is a match in both together.
pub proof fn lemma_match_in_second(a: Seq<char>, b: Seq<char>, pattern: Seq<char>, i: int)
    requires
        0 <= i,
    ensures
        matches_at(a + b, pattern, a.len() + i) == matches_at(b, pattern, i),
{
    if i + pattern.len() <= b.len() {
        assert((a + b).subrange(a.len() + i, a.len() + i + pattern.len()) == b.subrange(
            i,
            i + pattern.len(),
        ));
    }
}

/// A match found in the first of two texts is the one found in both together.
pub proof fn lemma_find_in_first(a: Seq<char>, b: Seq<char>, pattern: Seq<char>)
    requires
        find(a, pattern) is Some,
    ensures
        find(a + b, pattern) == find(a, pattern),
{
    lemma_find_from(a, pattern, 0);
    let i = find(a, pattern)->0;
    assert forall|j: int| 0 <= j < i implies !matches_at(a + b, pattern, j) by {
        lemma_match_in_first(a, b, pattern, j);
        assert(!matches_at(a, pattern, j));
    }
    lemma_match_in_first(a, b, pattern, i);
    lemma_find_from_is(a + b, pattern, 0, i);
}

/// Where nothing is found in the first of two texts, nor across the seam, what is found in the
/// second is found in both together.
pub proof fn lemma_find_in_second(a: Seq<char>, b: Seq<char>, pattern: Seq<char>)
    requires
        pattern.len() > 0,
        find(a, pattern) is None,
        !straddled(a, b, pattern),
    ensures
        find(a + b, pattern) == match find(b, pattern) {
            Some(i) => Some(a.len() + i),
            None => None,
        },
{
    lemma_find_from(a, pattern, 0);
    lemma_find_from(b, pattern, 0);
    lemma_find_from(a + b, pattern, 0);
    assert forall|j: int| 0 <= j < a.len() implies !matches_at(a + b, pattern, j) by {
        if j + pattern.len() <= a.len() {
            lemma_match_in_first(a, b, pattern, j);
            assert(!matches_at(a, pattern, j));
        }
    }
    assert forall|j: int| a.len() <= j implies matches_at(a + b, pattern, j) == matches_at(
        b,
        pattern,
        j - a.len(),
    ) by {
        lemma_match_in_second(a, b, pattern, j - a.len());
    }
    if let Some(i) = find(b, pattern) {
        assert(matches_at(a + b, pattern, a.len() + i));
        lemma_find_from_is(a + b, pattern, 0, a.len() + i);
    } else if let Some(i) = find(a + b, pattern) {
        assert(matches_at(b, pattern, i - a.len()));
    }
}

/// Replacing in two texts with no match across the seam is replacing in each.
pub proof fn lemma_replace_joined(a: Seq<char>, b: Seq<char>, from: Seq<char>, to: Seq<char>)
    requires
        from.len() > 0,
        !straddled(a, b, from),
    ensures
        replace(a + b, from, to) == replace(a, from, to) + replace(b, from, to),
    decreases a.len(),
{
    lemma_find_from(a, from, 0);
    match find(a, from) {
        Some(i) => {
            lemma_find_in_first(a, b, from);
            let rest = a.skip(i + from.len());
            assert((a + b).skip(i + from.len()) == rest + b);
            assert((a + b).take(i) == a.take(i));
            assert(!straddled(rest, b, from)) by {
                let head = a.take(i + from.len());
                assert(head + (rest + b) == a + b);
                assert forall|j: int|
                    0 <= j < rest.len() && j + from.len() > rest.len() implies !matches_at(
                    rest + b,
                    from,
                    j,
                ) by {
                    lemma_match_in_second(head, rest + b, from, j);
                    assert(!matches_at(a + b, from, head.len() + j));
                }
            }
            lemma_replace_joined(rest, b, from, to);
            assert(replace(a + b, from, to) == a.take(i) + to + (replace(rest, from, to) + replace(
                b,
                from,
                to,
            )));
            assert(replace(a + b, from, to) == replace(a, from, to) + replace(b, from, to));
        },
        None => {
            lemma_find_in_second(a, b, from);
            lemma_find_from(b, from, 0);
            match find(b, from) {
                Some(i) => {
                    assert((a + b).skip(a.len() + i + from.len()) == b.skip(i + from.len()));
                    assert((a + b).take(a.len() + i) == a + b.take(i));
                    assert(replace(a + b, from, to) == a + b.take(i) + to + replace(
                        b.skip(i + from.len()),
                        from,
                        to,
                    ));
                    assert(replace(a + b, from, to) == a + replace(b, from, to));
                },
                None => {},
            }
        },
    }
}

/// The replaced text is the new one where the old one is all there is.
pub proof fn lemma_replace_whole(from: Seq<char>, to: Seq<char>)
    requires
        from.len() > 0,
    ensures
        replace(from, from, to) == to,
{
    assert(from.subrange(0, from.len() as int) == from);
    lemma_find_from_is(from, from, 0, 0);
    let rest = from.skip(from.len() as int);
    lemma_find_from(rest, from, 0);
    assert(replace(rest, from, to) == rest);
    assert(from.take(0) + to + rest == to);
}

/// A text without the first character of a pattern has no match, and stays as it is.
pub proof fn lemma_absent(s: Seq<char>, pattern: Seq<char>, to: Seq<char>)
    requires
        pattern.len() > 0,
        !s.contains(pattern[0]),
    ensures
        find(s, pattern) is None,
        !contains(s, pattern),
        replace(s, pattern, to) == s,
        split(s, pattern) == seq![s],
{
    assert forall|i: int| !matches_at(s, pattern, i) by {
        if matches_at(s, pattern, i) {
            assert(s.subrange(i, i + pattern.len())[0] == s[i]);
        }
    }
    lemma_find_from(s, pattern, 0);
}

/// A pattern of one character has no match across a seam.
pub proof fn lemma_one_character(a: Seq<char>, b: Seq<char>, pattern: Seq<char>)
    requires
        pattern.len() == 1,
    ensures
        !straddled(a, b, pattern),
{
}

/// The first piece of a text ends at the first match.
pub proof fn lemma_split_joined(a: Seq<char>, b: Seq<char>, pattern: Seq<char>)
    requires
        pattern.len() > 0,
        find(a, pattern) is None,
        !straddled(a, pattern + b, pattern),
    ensures
        split(a + pattern + b, pattern) == seq![a] + split(b, pattern),
{
    let tail = pattern + b;
    assert(tail.subrange(0, pattern.len() as int) == pattern);
    lemma_find_from_is(tail, pattern, 0, 0);
    lemma_find_in_second(a, tail, pattern);
    assert(a + pattern + b == a + tail);
    assert((a + tail).take(a.len() as int) == a);
    assert((a + tail).skip((a.len() + pattern.len()) as int) == b);
}

/// Replacing one character by another changes each character on its own.
pub proof fn lemma_replace_character(s: Seq<char>, from: char, to: char)
    ensures
        replace(s, seq![from], seq![to]) == s.map_values(
            |c: char|
                if c == from {
                    to
                } else {
                    c
                },
        ),
    decreases s.len(),
{
    let changed = |c: char|
        if c == from {
            to
        } else {
            c
        };
    if s.len() == 0 {
        lemma_absent(s, seq![from], seq![to]);
        assert(s.map_values(changed) == s);
    } else {
        let head = s.drop_last();
        let last = seq![s.last()];
        lemma_replace_character(head, from, to);
        assert(head + last == s);
        lemma_one_character(head, last, seq![from]);
        lemma_replace_joined(head, last, seq![from], seq![to]);
        if s.last() == from {
            lemma_replace_whole(last, seq![to]);
        } else {
            lemma_absent(last, seq![from], seq![to]);
        }
        assert(s.map_values(changed) == head.map_values(changed) + seq![changed(s.last())]);
    }
}

/// A text that contains the pattern is split into at least two pieces.
pub proof fn lemma_split_in_two(s: Seq<char>, pattern: Seq<char>)
    requires
        pattern.len() > 0,
        contains(s, pattern),
    ensures
        split(s, pattern).len() >= 2,
{
    lemma_find_from(s, pattern, 0);
    let i = find(s, pattern)->0;
    let rest = s.skip(i + pattern.len());
    assert(split(rest, pattern).len() >= 1);
}

} // verus!
