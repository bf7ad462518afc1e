//! Text as sequences of characters: searching, splitting and replacing.
//!
//! The specification functions speak of `Seq<char>`, the view of `str` and `String`. The
//! executable functions work on slices of characters, so that a text is decoded once and then
//! indexed in constant time.
use vstd::prelude::*;
use vstd::slice::{slice_subrange, slice_to_vec};

verus! {

/// `String::push` appends one character at the end of the string.
pub assume_specification[ String::push ](text: &mut String, c: char)
    ensures
        final(text)@ == old(text)@.push(c),
;

/// Whether `pattern` stands in `s` at the index `i`.
pub open spec fn matches_at(s: Seq<char>, pattern: Seq<char>, i: int) -> bool {
    &&& 0 <= i
    &&& i + pattern.len() <= s.len()
    &&& s.subrange(i, i + pattern.len()) == pattern
}

/// Whether `s` begins with `pattern`.
pub open spec fn starts_with(s: Seq<char>, pattern: Seq<char>) -> bool {
    matches_at(s, pattern, 0)
}

/// Whether `pattern` stands anywhere in `s`.
pub open spec fn contains(s: Seq<char>, pattern: Seq<char>) -> bool {
    exists|i: int| #[trigger] matches_at(s, pattern, i)
}

/// The smallest index at or after `from` at which `pattern` stands in `s`, if there is one.
pub open spec fn find_from(s: Seq<char>, pattern: Seq<char>, from: int) -> Option<int>
    decreases s.len() + 1 - from,
{
    if from + pattern.len() > s.len() {
        None
    } else if matches_at(s, pattern, from) {
        Some(from)
    } else {
        find_from(s, pattern, from + 1)
    }
}

/// The smallest index at which `pattern` stands in `s`, if there is one.
pub open spec fn find(s: Seq<char>, pattern: Seq<char>) -> Option<int> {
    find_from(s, pattern, 0)
}

/// What `find_from` returns is the first match, and it returns something where there is a match.
pub proof fn lemma_find_from(s: Seq<char>, pattern: Seq<char>, from: int)
    requires
        0 <= from,
    ensures
        find_from(s, pattern, from) matches Some(i) ==> {
            &&& from <= i
            &&& matches_at(s, pattern, i)
            &&& forall|j: int| from <= j < i ==> !matches_at(s, pattern, j)
        },
        find_from(s, pattern, from) is None ==> forall|j: int|
            from <= j ==> !matches_at(s, pattern, j),
    decreases s.len() + 1 - from,
{
    if from + pattern.len() <= s.len() && !matches_at(s, pattern, from) {
        lemma_find_from(s, pattern, from + 1);
    }
}

/// A first match is what `find_from` returns.
pub proof fn lemma_find_from_is(s: Seq<char>, pattern: Seq<char>, from: int, i: int)
    requires
        0 <= from <= i,
        matches_at(s, pattern, i),
        forall|j: int| from <= j < i ==> !matches_at(s, pattern, j),
    ensures
        find_from(s, pattern, from) == Some(i),
{
    lemma_find_from(s, pattern, from);
}

/// `s` cut at every match of `pattern`, searched from the left without overlaps: always at least
/// one piece, and the matches themselves belong to none.
pub open spec fn split(s: Seq<char>, pattern: Seq<char>) -> Seq<Seq<char>>
    recommends
        pattern.len() > 0,
    decreases s.len(),
    when pattern.len() > 0
    via split_decreases
{
    match find(s, pattern) {
        None => seq![s],
        Some(i) => seq![s.take(i)] + split(s.skip(i + pattern.len()), pattern),
    }
}

#[via_fn]
proof fn split_decreases(s: Seq<char>, pattern: Seq<char>) {
    lemma_find_from(s, pattern, 0);
}

/// `s` with every match of `from`, searched from the left without overlaps, replaced by `to`.
pub open spec fn replace(s: Seq<char>, from: Seq<char>, to: Seq<char>) -> Seq<char>
    recommends
        from.len() > 0,
    decreases s.len(),
    when from.len() > 0
    via replace_decreases
{
    match find(s, from) {
        None => s,
        Some(i) => s.take(i) + to + replace(s.skip(i + from.len()), from, to),
    }
}

#[via_fn]
proof fn replace_decreases(s: Seq<char>, from: Seq<char>, to: Seq<char>) {
    lemma_find_from(s, from, 0);
}

/// A line without the carriage return that stood before its line feed.
pub open spec fn without_carriage_return(line: Seq<char>) -> Seq<char> {
    if line.len() > 0 && line.last() == '\r' {
        line.drop_last()
    } else {
        line
    }
}

/// The lines of `s`. A line ends at a line feed, which may follow a carriage return; neither
/// belongs to the line. The ending of the last line is optional.
pub open spec fn lines(s: Seq<char>) -> Seq<Seq<char>>
    decreases s.len(),
    via lines_decreases
{
    if s.len() == 0 {
        seq![]
    } else {
        match find(s, seq!['\n']) {
            None => seq![s],
            Some(i) => seq![without_carriage_return(s.take(i))] + lines(s.skip(i + 1)),
        }
    }
}

#[via_fn]
proof fn lines_decreases(s: Seq<char>) {
    lemma_find_from(s, seq!['\n'], 0);
}

/// The views of a sequence of character vectors.
pub open spec fn views(rows: Seq<Vec<char>>) -> Seq<Seq<char>> {
    rows.map_values(|row: Vec<char>| row@)
}

/// The characters of `text`, in order.
pub(crate) fn to_chars(text: &str) -> (chars: Vec<char>)
    ensures
        chars@ == text@,
{
    let mut chars: Vec<char> = Vec::new();
    for c in it: text.chars()
        invariant
            it.seq() == text@,
            chars@ == it.seq().take(it.index()),
    {
        chars.push(c);
    }
    chars
}

/// The text with the characters `chars`, in order.
pub(crate) fn to_text(chars: &[char]) -> (text: String)
    ensures
        text@ == chars@,
{
    let mut text = String::new();
    for i in 0..chars.len()
        invariant
            text@ == chars@.take(i as int),
    {
        text.push(chars[i]);
    }
    assert(chars@.take(chars@.len() as int) == chars@);
    text
}

/// Whether two slices hold the same characters.
pub(crate) fn same_chars(a: &[char], b: &[char]) -> (same: bool)
    ensures
        same == (a@ == b@),
{
    if a.len() != b.len() {
        return false;
    }
    for i in 0..a.len()
        invariant
            a@.len() == b@.len(),
            a@.take(i as int) == b@.take(i as int),
    {
        if a[i] != b[i] {
            assert(a@[i as int] != b@[i as int]);
            return false;
        }
        assert(a@.take(i + 1) == a@.take(i as int).push(a@[i as int]));
        assert(b@.take(i + 1) == b@.take(i as int).push(b@[i as int]));
    }
    assert(a@.take(a@.len() as int) == a@);
    assert(b@.take(b@.len() as int) == b@);
    true
}

/// Whether `pattern` stands in `s` at the index `i`.
pub(crate) fn matches_here(s: &[char], pattern: &[char], i: usize) -> (matches: bool)
    requires
        i <= s@.len(),
    ensures
        matches == matches_at(s@, pattern@, i as int),
{
    if pattern.len() > s.len() - i {
        return false;
    }
    same_chars(slice_subrange(s, i, i + pattern.len()), pattern)
}

/// The smallest index at or after `from` at which `pattern` stands in `s`.
pub(crate) fn position(s: &[char], pattern: &[char], from: usize) -> (found: Option<usize>)
    requires
        from <= s@.len(),
        pattern@.len() > 0,
    ensures
        match found {
            Some(i) => find_from(s@, pattern@, from as int) == Some(i as int) && i + pattern@.len()
                <= s@.len(),
            None => find_from(s@, pattern@, from as int) is None,
        },
{
    let mut i: usize = from;
    while i < s.len() && pattern.len() <= s.len() - i
        invariant
            from <= i <= s@.len(),
            pattern@.len() > 0,
            find_from(s@, pattern@, from as int) == find_from(s@, pattern@, i as int),
        decreases s@.len() - i,
    {
        if matches_here(s, pattern, i) {
            return Some(i);
        }
        i = i + 1;
    }
    None
}

/// Whether `pattern` stands anywhere in `s`.
pub(crate) fn has_match(s: &[char], pattern: &[char]) -> (found: bool)
    requires
        pattern@.len() > 0,
    ensures
        found == contains(s@, pattern@),
{
    proof {
        lemma_find_from(s@, pattern@, 0);
    }
    position(s, pattern, 0).is_some()
}

/// `s` cut at every match of `pattern`.
pub(crate) fn pieces(s: &[char], pattern: &[char]) -> (rows: Vec<Vec<char>>)
    requires
        pattern@.len() > 0,
    ensures
        views(rows@) == split(s@, pattern@),
{
    let mut rows: Vec<Vec<char>> = Vec::new();
    let mut rest: &[char] = s;
    loop
        invariant_except_break
            pattern@.len() > 0,
            views(rows@) + split(rest@, pattern@) == split(s@, pattern@),
        ensures
            views(rows@) == split(s@, pattern@),
        decreases rest@.len(),
    {
        let ghost before = rows@;
        match position(rest, pattern, 0) {
            None => {
                rows.push(slice_to_vec(rest));
                assert(views(rows@) == views(before) + seq![rest@]);
                break;
            },
            Some(i) => {
                let ghost whole = rest@;
                let end: usize = rest.len();
                rows.push(slice_to_vec(slice_subrange(rest, 0, i)));
                rest = slice_subrange(rest, i + pattern.len(), end);
                assert(rest@ == whole.skip(i + pattern@.len()));
                assert(views(rows@) == views(before) + seq![whole.take(i as int)]);
                assert(views(rows@) + split(rest@, pattern@) == views(before) + split(
                    whole,
                    pattern@,
                ));
            },
        }
    }
    rows
}

/// `s` with every match of `from` replaced by `to`.
pub(crate) fn replaced(s: &[char], from: &[char], to: &[char]) -> (result: Vec<char>)
    requires
        from@.len() > 0,
    ensures
        result@ == replace(s@, from@, to@),
{
    let mut result: Vec<char> = Vec::new();
    let mut rest: &[char] = s;
    loop
        invariant_except_break
            from@.len() > 0,
            result@ + replace(rest@, from@, to@) == replace(s@, from@, to@),
        ensures
            result@ == replace(s@, from@, to@),
        decreases rest@.len(),
    {
        let ghost before = result@;
        match position(rest, from, 0) {
            None => {
                append_chars(&mut result, rest);
                break;
            },
            Some(i) => {
                let ghost whole = rest@;
                let end: usize = rest.len();
                append_chars(&mut result, slice_subrange(rest, 0, i));
                append_chars(&mut result, to);
                rest = slice_subrange(rest, i + from.len(), end);
                assert(rest@ == whole.skip(i + from@.len()));
                assert(result@ + replace(rest@, from@, to@) == before + replace(
                    whole,
                    from@,
                    to@,
                ));
            },
        }
    }
    result
}

/// Adds the characters `tail` at the end of `chars`.
pub(crate) fn append_chars(chars: &mut Vec<char>, tail: &[char])
    ensures
        final(chars)@ == old(chars)@ + tail@,
{
    for i in 0..tail.len()
        invariant
            chars@ == old(chars)@ + tail@.take(i as int),
    {
        chars.push(tail[i]);
    }
    assert(tail@.take(tail@.len() as int) == tail@);
}

/// The lines of `s`.
pub(crate) fn rows_of(s: &[char]) -> (rows: Vec<Vec<char>>)
    ensures
        views(rows@) == lines(s@),
{
    let mut rows: Vec<Vec<char>> = Vec::new();
    let mut rest: &[char] = s;
    let feed: Vec<char> = vec!['\n'];
    assert(feed@ == seq!['\n']);
    while rest.len() > 0
        invariant
            feed@ == seq!['\n'],
            views(rows@) + lines(rest@) == lines(s@),
        decreases rest@.len(),
    {
        let ghost before = rows@;
        let ghost whole = rest@;
        match position(rest, &feed, 0) {
            None => {
                rows.push(slice_to_vec(rest));
                rest = slice_subrange(rest, rest.len(), rest.len());
                assert(views(rows@) == views(before) + seq![whole]);
                assert(lines(rest@) == Seq::<Seq<char>>::empty());
            },
            Some(i) => {
                let end: usize = if i > 0 && rest[i - 1] == '\r' {
                    i - 1
                } else {
                    i
                };
                rows.push(slice_to_vec(slice_subrange(rest, 0, end)));
                rest = slice_subrange(rest, i + 1, rest.len());
                assert(whole.subrange(0, end as int) == without_carriage_return(
                    whole.take(i as int),
                ));
                assert(rest@ == whole.skip(i + 1));
                assert(views(rows@) == views(before) + seq![
                    without_carriage_return(whole.take(i as int)),
                ]);
                assert(views(rows@) + lines(rest@) == views(before) + lines(whole));
            },
        }
    }
    assert(views(rows@) + lines(rest@) == views(rows@));
    rows
}

} // verus!
