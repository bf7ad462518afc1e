//! The order in which downloaded part files make up a video.
use vstd::prelude::*;

use crate::number::{decimal_value, is_digit, is_number, parse_u32, parsed_u32, without_sign};
use crate::number::{law_digit_counts_ten_times_the_next, law_numbers_grow_by_digits};
use crate::text::{append_chars, has_match, matches_here, pieces, replaced, to_chars};
use crate::text::{contains, matches_at, replace, split, starts_with, views};
use crate::text::lemma_find_from;
use crate::text_laws::{law_text_contains_its_middle, law_text_starts_with_its_prefix};
use crate::text_lemmas::{lemma_absent, lemma_one_character, lemma_replace_joined};
use crate::text_lemmas::lemma_replace_whole;
use crate::text_lemmas::{lemma_split_in_two, lemma_split_joined, straddled};

verus! {

/// The name of a part file without the mark of a muted part and without the file ending.
pub open spec fn bare_name(name: Seq<char>) -> Seq<char> {
    replace(replace(name, "-muted"@, ""@), ".ts"@, ""@)
}

/// The number by which a part file of the video `video_id` is ordered: the bare name as a number,
/// or else what stands between the first two hyphens of a bare name that begins with the id
/// and a `v`.
pub open spec fn numbered(video_id: Seq<char>, name: Seq<char>) -> Option<int> {
    let bare = bare_name(name);
    match parsed_u32(bare) {
        Some(number) => Some(number),
        None => if starts_with(bare, video_id + "v"@) && contains(bare, "-"@) {
            parsed_u32(split(bare, "-"@)[1])
        } else {
            None
        },
    }
}

/// The number by which the part file `name` of the video `video_id` is ordered.
pub fn part_number(video_id: &str, name: &str) -> (number: Option<u32>)
    ensures
        match number {
            Some(n) => numbered(video_id@, name@) == Some(n as int),
            None => numbered(video_id@, name@) is None,
        },
        ({
            let bare = replace(replace(name@, "-muted"@, ""@), ".ts"@, ""@);
            let read = match number {
                Some(n) => Some(n as int),
                None => None,
            };
            &&& parsed_u32(bare) is Some ==> read == parsed_u32(bare)
            &&& parsed_u32(bare) is None && contains(bare, "-"@) && starts_with(
                bare,
                video_id@ + "v"@,
            ) ==> read == parsed_u32(split(bare, "-"@)[1])
            &&& parsed_u32(bare) is None && !(contains(bare, "-"@) && starts_with(
                bare,
                video_id@ + "v"@,
            )) ==> read is None
        }),
{
    proof {
        reveal_strlit("-muted");
        reveal_strlit(".ts");
        reveal_strlit("-");
    }
    let empty = to_chars("");
    let hyphen = to_chars("-");
    let unmuted = replaced(&to_chars(name), &to_chars("-muted"), &empty);
    let bare = replaced(&unmuted, &to_chars(".ts"), &empty);
    match parse_u32(&bare) {
        Some(n) => Some(n),
        None => {
            let mut prefix = to_chars(video_id);
            append_chars(&mut prefix, &to_chars("v"));
            if !matches_here(&bare, &prefix, 0) || !has_match(&bare, &hyphen) {
                return None;
            }
            let rows = pieces(&bare, &hyphen);
            proof {
                lemma_split_in_two(bare@, "-"@);
                assert(views(rows@)[1] == rows@[1]@);
            }
            parse_u32(&rows[1])
        },
    }
}

/// Whether the part files `names` of the video `video_id` can be put in order: each has a number,
/// or there are not two files to compare.
pub open spec fn can_be_ordered(video_id: Seq<char>, names: Seq<String>) -> bool {
    names.len() < 2 || forall|i: int|
        0 <= i < names.len() ==> numbered(video_id, #[trigger] names[i]@) is Some
}

/// Whether the item `a` stands before the item `b`: it has the smaller key, or the same key and
/// the smaller index.
pub open spec fn comes_before(keys: Seq<int>, a: int, b: int) -> bool {
    keys[a] < keys[b] || (keys[a] == keys[b] && a < b)
}

/// Whether `order` lists the indices of `keys`, each of them once, by ascending key, and items
/// with the same key as they stood.
pub open spec fn is_stable_order(keys: Seq<int>, order: Seq<usize>) -> bool {
    &&& order.len() == keys.len()
    &&& forall|i: int| 0 <= i < order.len() ==> #[trigger] order[i] < keys.len()
    &&& forall|k: usize| k < keys.len() ==> #[trigger] order.contains(k)
    &&& forall|i: int, j: int|
        0 <= i < j < order.len() ==> comes_before(
            keys,
            #[trigger] order[i] as int,
            #[trigger] order[j] as int,
        )
}

/// The numbers of the part files `names` of the video `video_id`.
pub open spec fn numbers(video_id: Seq<char>, names: Seq<String>) -> Seq<int> {
    names.map_values(|name: String| numbered(video_id, name@)->0)
}

/// The indices of `keys` in a stable order.
fn stable_order(keys: &Vec<u32>) -> (order: Vec<usize>)
    ensures
        is_stable_order(keys@.map_values(|key: u32| key as int), order@),
{
    let ghost all = keys@.map_values(|key: u32| key as int);
    let mut order: Vec<usize> = Vec::new();
    for n in 0..keys.len()
        invariant
            all == keys@.map_values(|key: u32| key as int),
            is_stable_order(all.take(n as int), order@),
    {
        let ghost known = all.take(n as int);
        let ghost before = order@;
        let mut at: usize = order.len();
        while at > 0 && keys[order[at - 1]] > keys[n]
            invariant
                n < keys@.len(),
                all == keys@.map_values(|key: u32| key as int),
                known == all.take(n as int),
                is_stable_order(known, order@),
                order@ == before,
                at <= order@.len(),
                forall|j: int|
                    at <= j < order@.len() ==> all[#[trigger] order@[j] as int] > all[n as int],
            decreases at,
        {
            at = at - 1;
        }
        order.insert(at, n);
        proof {
            let now = all.take(n + 1);
            assert forall|i: int| 0 <= i < order@.len() implies #[trigger] order@[i]
                < now.len() by {
                if i < at {
                    assert(order@[i] == before[i]);
                } else if i > at {
                    assert(order@[i] == before[i - 1]);
                }
            }
            assert forall|k: usize| k < now.len() implies #[trigger] order@.contains(k) by {
                if k == n {
                    assert(order@[at as int] == k);
                } else {
                    assert(before.contains(k));
                    let i = choose|i: int| 0 <= i < before.len() && before[i] == k;
                    if i < at {
                        assert(order@[i] == k);
                    } else {
                        assert(order@[i + 1] == k);
                    }
                }
            }
            assert forall|i: int, j: int| 0 <= i < j < order@.len() implies comes_before(
                now,
                #[trigger] order@[i] as int,
                #[trigger] order@[j] as int,
            ) by {
                let a = if i < at { i } else { i - 1 };
                let b = if j < at { j } else { j - 1 };
                if i != at && j != at {
                    assert(order@[i] == before[a] && order@[j] == before[b]);
                    assert(comes_before(known, before[a] as int, before[b] as int));
                } else if i == at {
                    assert(order@[j] == before[b]);
                    assert(all[before[b] as int] > all[n as int]);
                } else {
                    assert(order@[i] == before[a]);
                    if a < at - 1 {
                        assert(comes_before(known, before[a] as int, before[at - 1] as int));
                    }
                    assert(all[before[at - 1] as int] <= all[n as int]);
                }
            }
        }
    }
    assert(all.take(keys@.len() as int) == all);
    order
}

/// The order in which the part files `names` of the video `video_id` follow one another, as
/// indices of `names`.
pub fn sort_video_part_filenames(video_id: &str, names: &Vec<String>) -> (order: Vec<usize>)
    requires
        can_be_ordered(video_id@, names@),
    ensures
        is_stable_order(numbers(video_id@, names@), order@),
{
    if names.len() < 2 {
        let mut order: Vec<usize> = Vec::new();
        if names.len() == 1 {
            order.push(0);
            assert(order@[0] == 0);
        }
        return order;
    }
    let mut keys: Vec<u32> = Vec::new();
    for i in 0..names.len()
        invariant
            can_be_ordered(video_id@, names@),
            names@.len() >= 2,
            keys@.len() == i,
            forall|j: int| 0 <= j < i ==> numbered(video_id@, names@[j]@) == Some(
                #[trigger] keys@[j] as int,
            ),
    {
        assert(numbered(video_id@, names@[i as int]@) is Some);
        if let Some(key) = part_number(video_id, names[i].as_str()) {
            keys.push(key);
        }
    }
    assert(keys@.map_values(|key: u32| key as int) == numbers(video_id@, names@));
    stable_order(&keys)
}

/// The order of the part files where they can be put in order, and nothing where they cannot.
pub fn try_sort_video_part_filenames(video_id: &str, names: &Vec<String>) -> (order: Option<
    Vec<usize>,
>)
    ensures
        match order {
            Some(order) => can_be_ordered(video_id@, names@) && is_stable_order(
                numbers(video_id@, names@),
                order@,
            ),
            None => !can_be_ordered(video_id@, names@),
        },
        order is None <==> names@.len() >= 2 && exists|i: int|
            0 <= i < names@.len() && numbered(video_id@, #[trigger] names@[i]@) is None,
{
    if names.len() >= 2 {
        for i in 0..names.len()
            invariant
                names@.len() >= 2,
                forall|j: int| 0 <= j < i ==> numbered(video_id@, #[trigger] names@[j]@) is Some,
        {
            if part_number(video_id, names[i].as_str()).is_none() {
                assert(numbered(video_id@, names@[i as int]@) is None);
                return None;
            }
        }
    }
    Some(sort_video_part_filenames(video_id, names))
}

/// A muted part is ordered like the part with the same name that is not muted.
pub proof fn law_muted_part_keeps_its_number(video_id: Seq<char>, stem: Seq<char>)
    ensures
        numbered(video_id, stem + "-muted.ts"@) == numbered(video_id, stem + ".ts"@),
{
    reveal_strlit("-muted.ts");
    reveal_strlit("-muted");
    reveal_strlit(".ts");
    reveal_strlit("");
    let mark = "-muted"@;
    let ending = ".ts"@;
    assert("-muted.ts"@ == mark + ending);
    assert(stem + "-muted.ts"@ == (stem + mark) + ending);
    assert forall|a: Seq<char>| !straddled(a, mark, mark) by {
        assert forall|i: int|
            0 <= i < a.len() && i + mark.len() > a.len() implies !matches_at(a + mark, mark, i) by {
            if matches_at(a + mark, mark, i) {
                assert((a + mark).subrange(i, i + mark.len())[a.len() - i] == mark[0]);
            }
        }
    }
    assert forall|a: Seq<char>| !straddled(a, ending, mark) by {
        assert forall|i: int|
            0 <= i < a.len() && i + mark.len() > a.len() implies !matches_at(
            a + ending,
            mark,
            i,
        ) by {
            if matches_at(a + ending, mark, i) {
                assert((a + ending).subrange(i, i + mark.len())[a.len() - i] == ending[0]);
            }
        }
    }
    lemma_replace_joined(stem, mark, mark, ""@);
    lemma_replace_joined(stem + mark, ending, mark, ""@);
    lemma_replace_joined(stem, ending, mark, ""@);
    lemma_replace_whole(mark, ""@);
    assert(replace(stem, mark, ""@) + ""@ == replace(stem, mark, ""@));
}

/// A part file whose name is a number is ordered by that number.
pub proof fn law_plain_part_is_ordered_by_its_name(video_id: Seq<char>, digits: Seq<char>)
    requires
        is_number(digits),
        decimal_value(digits) <= u32::MAX,
    ensures
        numbered(video_id, digits + ".ts"@) == Some(decimal_value(digits) as int),
{
    reveal_strlit("-muted");
    reveal_strlit(".ts");
    reveal_strlit("");
    let ending = ".ts"@;
    assert(!(digits + ending).contains('-')) by {
        if (digits + ending).contains('-') {
            let i = choose|i: int|
                0 <= i < (digits + ending).len() && (digits + ending)[i] == '-';
            if i < digits.len() {
                assert(is_digit(digits[i]));
            }
        }
    }
    lemma_absent(digits + ending, "-muted"@, ""@);
    assert(!digits.contains('.')) by {
        if digits.contains('.') {
            let i = choose|i: int| 0 <= i < digits.len() && digits[i] == '.';
            assert(is_digit(digits[i]));
        }
    }
    lemma_absent(digits, ending, ""@);
    assert(!straddled(digits, ending, ending)) by {
        assert forall|i: int|
            0 <= i < digits.len() && i + ending.len() > digits.len() implies !matches_at(
            digits + ending,
            ending,
            i,
        ) by {
            if matches_at(digits + ending, ending, i) {
                assert((digits + ending).subrange(i, i + ending.len())[0] == digits[i]);
            }
        }
    }
    lemma_replace_joined(digits, ending, ending, ""@);
    lemma_replace_whole(ending, ""@);
    assert(digits + ""@ == digits);
    assert(is_digit(digits[0]));
}

/// A part file named after the id of its video, a `v` and a revision, then a hyphen and a number,
/// is ordered by that number.
pub proof fn law_part_of_a_revision_is_ordered_by_its_number(
    video_id: Seq<char>,
    revision: Seq<char>,
    digits: Seq<char>,
)
    requires
        !video_id.contains('-'),
        !video_id.contains('.'),
        !revision.contains('-'),
        !revision.contains('.'),
        is_number(digits),
        decimal_value(digits) <= u32::MAX,
    ensures
        numbered(video_id, video_id + "v"@ + revision + "-"@ + digits + ".ts"@) == Some(
            decimal_value(digits) as int,
        ),
{
    reveal_strlit("-muted");
    reveal_strlit(".ts");
    reveal_strlit("-");
    reveal_strlit("v");
    reveal_strlit("");
    let mark = "-muted"@;
    let ending = ".ts"@;
    let stem = video_id + "v"@ + revision;
    let at = stem.len() as int;
    let bare = stem + "-"@ + digits;
    let name = bare + ending;
    assert(name == video_id + "v"@ + revision + "-"@ + digits + ".ts"@);
    assert forall|i: int| 0 <= i < stem.len() implies stem[i] != '-' && stem[i] != '.' by {
        if i < video_id.len() {
            assert(video_id.contains(video_id[i]));
        } else if i > video_id.len() {
            assert(revision.contains(revision[i - video_id.len() - 1]));
        }
    }
    assert forall|i: int| at < i < bare.len() implies is_digit(#[trigger] bare[i]) by {
        assert(bare[i] == digits[i - at - 1]);
    }
    assert forall|i: int| !matches_at(name, mark, i) by {
        if matches_at(name, mark, i) {
            let part = name.subrange(i, i + mark.len());
            assert(part[0] == name[i] && part[1] == name[i + 1]);
            if i == at {
                assert(name[i + 1] == bare[at + 1]);
                assert(is_digit(bare[at + 1]));
            } else if at < i < bare.len() {
                assert(is_digit(bare[i]));
            }
        }
    }
    lemma_find_from(name, mark, 0);
    assert(replace(name, mark, ""@) == name);
    assert(!bare.contains('.')) by {
        if bare.contains('.') {
            let i = choose|i: int| 0 <= i < bare.len() && bare[i] == '.';
            if i > at {
                assert(is_digit(bare[i]));
            }
        }
    }
    assert(!straddled(bare, ending, ending)) by {
        assert forall|i: int|
            0 <= i < bare.len() && i + ending.len() > bare.len() implies !matches_at(
            bare + ending,
            ending,
            i,
        ) by {
            if matches_at(bare + ending, ending, i) {
                assert((bare + ending).subrange(i, i + ending.len())[0] == bare[i]);
            }
        }
    }
    lemma_absent(bare, ending, ""@);
    lemma_replace_joined(bare, ending, ending, ""@);
    lemma_replace_whole(ending, ""@);
    assert(bare + ""@ == bare);
    assert(bare_name(name) == bare);
    let unsigned = without_sign(bare, false);
    assert(unsigned[unsigned.len() - digits.len() - 1] == '-');
    assert(!is_digit('-'));
    assert(parsed_u32(bare) is None);
    assert(bare.subrange(0, (video_id + "v"@).len() as int) == video_id + "v"@);
    assert(bare.subrange(at, at + 1) == "-"@);
    assert(matches_at(bare, "-"@, at));
    assert(!stem.contains('-'));
    lemma_absent(stem, "-"@, ""@);
    lemma_split_joined(stem, digits, "-"@);
    assert(!digits.contains('-')) by {
        if digits.contains('-') {
            let i = choose|i: int| 0 <= i < digits.len() && digits[i] == '-';
            assert(is_digit(digits[i]));
        }
    }
    lemma_absent(digits, "-"@, ""@);
    assert(split(bare, "-"@)[1] == digits);
    assert(is_digit(digits[0]));
}

/// Keys have one stable order.
pub proof fn law_stable_order_is_unique(keys: Seq<int>, a: Seq<usize>, b: Seq<usize>)
    requires
        is_stable_order(keys, a),
        is_stable_order(keys, b),
    ensures
        a == b,
{
    lemma_same_start(keys, a, b, keys.len() as int);
    assert(a.take(keys.len() as int) == a);
    assert(b.take(keys.len() as int) == b);
}

/// Two stable orders of the same keys agree on their first `n` items.
proof fn lemma_same_start(keys: Seq<int>, a: Seq<usize>, b: Seq<usize>, n: int)
    requires
        is_stable_order(keys, a),
        is_stable_order(keys, b),
        0 <= n <= keys.len(),
    ensures
        a.take(n) == b.take(n),
    decreases n,
{
    if n > 0 {
        let i = n - 1;
        lemma_same_start(keys, a, b, i);
        assert forall|k: int| 0 <= k < i implies a[k] == b[k] by {
            assert(a.take(i)[k] == b.take(i)[k]);
        }
        if a[i] != b[i] {
            assert(a.contains(b[i]));
            assert(b.contains(a[i]));
            let j = choose|j: int| 0 <= j < a.len() && a[j] == b[i];
            let k = choose|k: int| 0 <= k < b.len() && b[k] == a[i];
            if j < i {
                assert(comes_before(keys, b[j] as int, b[i] as int));
            } else if k < i {
                assert(comes_before(keys, a[k] as int, a[i] as int));
            } else {
                assert(comes_before(keys, a[i] as int, a[j] as int));
                assert(comes_before(keys, b[i] as int, b[k] as int));
            }
        }
        assert(a.take(n) == a.take(i).push(a[i]));
        assert(b.take(n) == b.take(i).push(b[i]));
    }
}

/// A name that holds neither mark nor ending is left as it is, and one that has them loses them.
pub proof fn law_marks_and_endings_go(stem: Seq<char>)
    requires
        !stem.contains('-'),
        !stem.contains('.'),
    ensures
        bare_name(stem) == stem,
        bare_name(stem + ".ts"@) == stem,
        bare_name(stem + "-muted"@) == stem,
        bare_name(stem + "-muted.ts"@) == stem,
{
    reveal_strlit("-muted.ts");
    reveal_strlit("-muted");
    reveal_strlit(".ts");
    reveal_strlit("");
    let mark = "-muted"@;
    let ending = ".ts"@;
    assert("-muted.ts"@ =~= mark + ending);
    assert(!(stem + ending).contains('-')) by {
        if (stem + ending).contains('-') {
            let i = choose|i: int| 0 <= i < (stem + ending).len() && (stem + ending)[i] == '-';
            if i < stem.len() {
                assert(stem.contains(stem[i]));
            }
        }
    }
    lemma_absent(stem, mark, ""@);
    lemma_absent(stem, ending, ""@);
    lemma_absent(stem + ending, mark, ""@);
    assert(!ending.contains('-'));
    lemma_absent(ending, mark, ""@);
    lemma_replace_whole(mark, ""@);
    lemma_replace_whole(ending, ""@);
    assert forall|b: Seq<char>| !straddled(stem, b, mark) by {
        assert forall|i: int|
            0 <= i < stem.len() && i + mark.len() > stem.len() implies !matches_at(
            stem + b,
            mark,
            i,
        ) by {
            if matches_at(stem + b, mark, i) {
                assert((stem + b).subrange(i, i + mark.len())[0] == stem[i]);
                assert(stem.contains(stem[i]));
            }
        }
    }
    assert(!straddled(mark, ending, mark)) by {
        assert forall|i: int|
            0 <= i < mark.len() && i + mark.len() > mark.len() implies !matches_at(
            mark + ending,
            mark,
            i,
        ) by {
            if matches_at(mark + ending, mark, i) {
                assert((mark + ending).subrange(i, i + mark.len())[mark.len() - i] == '.');
            }
        }
    }
    assert(!straddled(stem, ending, ending)) by {
        assert forall|i: int|
            0 <= i < stem.len() && i + ending.len() > stem.len() implies !matches_at(
            stem + ending,
            ending,
            i,
        ) by {
            if matches_at(stem + ending, ending, i) {
                assert((stem + ending).subrange(i, i + ending.len())[0] == stem[i]);
                assert(stem.contains(stem[i]));
            }
        }
    }
    lemma_replace_joined(stem, mark, mark, ""@);
    lemma_replace_joined(mark, ending, mark, ""@);
    lemma_replace_joined(stem, mark + ending, mark, ""@);
    lemma_replace_joined(stem, ending, ending, ""@);
    assert(stem + ""@ =~= stem);
    assert(""@ + ending =~= ending);
    assert(stem + (mark + ending) =~= stem + "-muted.ts"@);
}

/// A name of which an integer is left without mark and ending has that integer as its number.
pub proof fn law_integer_is_the_number(video_id: Seq<char>, name: Seq<char>)
    requires
        parsed_u32(bare_name(name)) is Some,
    ensures
        numbered(video_id, name) == parsed_u32(bare_name(name)),
{
}

/// A name of which no integer is left has the integer behind its first hyphen, up to the next one,
/// if it begins with the id of the video and a `v`.
pub proof fn law_integer_behind_the_hyphen_is_the_number(
    video_id: Seq<char>,
    name: Seq<char>,
    first: Seq<char>,
    second: Seq<char>,
    rest: Seq<char>,
)
    requires
        parsed_u32(bare_name(name)) is None,
        (video_id + "v"@).is_prefix_of(bare_name(name)),
        !first.contains('-'),
        !second.contains('-'),
        bare_name(name) == first + seq!['-'] + second || bare_name(name) == first + seq!['-']
            + second + seq!['-'] + rest,
    ensures
        numbered(video_id, name) == parsed_u32(second),
{
    reveal_strlit("-");
    let hyphen = "-"@;
    let bare = bare_name(name);
    assert(hyphen =~= seq!['-']);
    law_text_starts_with_its_prefix(bare, video_id + "v"@);
    lemma_absent(first, hyphen, ""@);
    lemma_absent(second, hyphen, ""@);
    let tail = if bare == first + seq!['-'] + second {
        second
    } else {
        second + hyphen + rest
    };
    assert(bare =~= first + hyphen + tail);
    law_text_contains_its_middle(first, hyphen, tail);
    lemma_one_character(first, hyphen + tail, hyphen);
    lemma_split_joined(first, tail, hyphen);
    lemma_one_character(second, hyphen + rest, hyphen);
    lemma_split_joined(second, rest, hyphen);
    assert(split(tail, hyphen)[0] == second);
    assert(split(bare, hyphen)[1] == split(tail, hyphen)[0]);
}

/// A name of which no integer is left has no number if it does not begin with the id of the video
/// and a `v`, or has no hyphen.
pub proof fn law_other_names_have_no_number(video_id: Seq<char>, name: Seq<char>)
    requires
        parsed_u32(bare_name(name)) is None,
        !(video_id + "v"@).is_prefix_of(bare_name(name)) || !bare_name(name).contains('-'),
    ensures
        numbered(video_id, name) is None,
{
    reveal_strlit("-");
    law_text_starts_with_its_prefix(bare_name(name), video_id + "v"@);
    if !bare_name(name).contains('-') {
        lemma_absent(bare_name(name), "-"@, ""@);
    }
}

/// In a stable order the keys ascend, items with the same key stay as they stood, and every index
/// occurs, none of them twice.
pub proof fn law_stable_order_ascends(keys: Seq<int>, order: Seq<usize>, i: int, j: int, k: usize)
    requires
        is_stable_order(keys, order),
        0 <= i < j < order.len(),
        k < keys.len(),
    ensures
        order.len() == keys.len(),
        order[i] < keys.len(),
        order[j] < keys.len(),
        order[i] != order[j],
        keys[order[i] as int] <= keys[order[j] as int],
        keys[order[i] as int] == keys[order[j] as int] ==> order[i] < order[j],
        order.contains(k),
{
    assert(comes_before(keys, order[i] as int, order[j] as int));
}

/// Every name is ordered by its own number.
pub proof fn law_names_are_ordered_by_their_numbers(
    video_id: Seq<char>,
    names: Seq<String>,
    order: Seq<usize>,
    i: int,
    j: int,
)
    requires
        can_be_ordered(video_id, names),
        is_stable_order(numbers(video_id, names), order),
        0 <= i < j < order.len(),
    ensures
        order.len() == names.len(),
        ({
            let a = order[i] as int;
            let b = order[j] as int;
            &&& 0 <= a < names.len()
            &&& 0 <= b < names.len()
            &&& numbered(video_id, names[a]@) matches Some(m) && numbered(
                video_id,
                names[b]@,
            ) matches Some(n) && (m < n || (m == n && a < b))
        }),
{
    law_stable_order_ascends(numbers(video_id, names), order, i, j, order[i]);
    assert(numbered(video_id, names[order[i] as int]@) is Some);
    assert(numbered(video_id, names[order[j] as int]@) is Some);
}

/// Of two parts whose names are numbers, the one with the smaller number comes first, whatever the
/// numbers are.
pub proof fn law_smaller_number_comes_first(
    video_id: Seq<char>,
    names: Seq<String>,
    order: Seq<usize>,
    small: Seq<char>,
    large: Seq<char>,
    i: int,
    j: int,
)
    requires
        can_be_ordered(video_id, names),
        is_stable_order(numbers(video_id, names), order),
        is_number(small),
        is_number(large),
        decimal_value(small) < decimal_value(large) <= 4_294_967_295,
        0 <= i < order.len(),
        0 <= j < order.len(),
        names[order[i] as int]@ == small + ".ts"@,
        names[order[j] as int]@ == large + ".ts"@,
    ensures
        i < j,
{
    law_plain_part_is_ordered_by_its_name(video_id, small);
    law_plain_part_is_ordered_by_its_name(video_id, large);
    if j < i {
        law_names_are_ordered_by_their_numbers(video_id, names, order, j, i);
    }
}

/// A part is ordered before the next one: a number whose last digit is not nine stands before the
/// number with a digit larger by one in its place, and one that ends in nine before the number in
/// which the rest is larger by one and a zero follows.
pub proof fn law_part_is_ordered_before_the_next(
    video_id: Seq<char>,
    head: Seq<char>,
    next_head: Seq<char>,
    digit: char,
    next_digit: char,
)
    requires
        head.len() > 0 ==> is_number(head),
        next_head.len() > 0 ==> is_number(next_head),
        is_digit(digit),
        is_digit(next_digit),
        decimal_value(next_head.push(next_digit)) <= 4_294_967_295,
        (next_head == head && next_digit as int == digit as int + 1) || (decimal_value(next_head)
            == decimal_value(head) + 1 && digit == '9' && next_digit == '0'),
    ensures
        numbered(video_id, head.push(digit) + ".ts"@) matches Some(m) && numbered(
            video_id,
            next_head.push(next_digit) + ".ts"@,
        ) == Some(m + 1),
{
    law_numbers_grow_by_digits(head, digit);
    law_numbers_grow_by_digits(next_head, next_digit);
    law_digit_counts_ten_times_the_next(head, digit);
    law_digit_counts_ten_times_the_next(next_head, next_digit);
    law_plain_part_is_ordered_by_its_name(video_id, head.push(digit));
    law_plain_part_is_ordered_by_its_name(video_id, next_head.push(next_digit));
}

} // verus!
