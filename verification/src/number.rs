//! Numbers in decimal notation.
use vstd::arithmetic::power::pow;
use vstd::prelude::*;
use vstd::slice::slice_subrange;

use crate::text::to_chars;

verus! {

/// Whether `c` is one of the ten decimal digits.
pub open spec fn is_digit(c: char) -> bool {
    '0' <= c <= '9'
}

/// Whether `s` holds decimal digits only, and at least one.
pub open spec fn is_number(s: Seq<char>) -> bool {
    &&& s.len() > 0
    &&& forall|i: int| 0 <= i < s.len() ==> is_digit(#[trigger] s[i])
}

/// The number that the decimal digits `s` denote.
pub open spec fn decimal_value(s: Seq<char>) -> nat
    decreases s.len(),
{
    if s.len() == 0 {
        0
    } else {
        (decimal_value(s.drop_last()) * 10 + (s.last() as int - '0' as int)) as nat
    }
}

/// `s` without the sign that it may begin with: a plus, and where `signed` also a minus.
pub open spec fn without_sign(s: Seq<char>, signed: bool) -> Seq<char> {
    if s.len() > 0 && (s[0] == '+' || (signed && s[0] == '-')) {
        s.drop_first()
    } else {
        s
    }
}

/// The integer that `s` denotes, digits behind an optional sign, if it lies between `min` and
/// `max`.
pub open spec fn integer_in(s: Seq<char>, signed: bool, min: int, max: int) -> Option<int> {
    let digits = without_sign(s, signed);
    let magnitude = decimal_value(digits) as int;
    let value = if s.len() > 0 && signed && s[0] == '-' {
        -magnitude
    } else {
        magnitude
    };
    if is_number(digits) && min <= value <= max {
        Some(value)
    } else {
        None
    }
}

/// What `str::parse::<i64>` reads in `s`.
pub open spec fn parsed_i64(s: Seq<char>) -> Option<int> {
    integer_in(s, true, i64::MIN as int, i64::MAX as int)
}

/// What `str::parse::<u32>` reads in `s`.
pub open spec fn parsed_u32(s: Seq<char>) -> Option<int> {
    integer_in(s, false, 0, u32::MAX as int)
}

/// Digits at the end of a number do not make it smaller.
proof fn lemma_value_of_prefix(s: Seq<char>, i: int)
    requires
        0 <= i <= s.len(),
        forall|j: int| 0 <= j < s.len() ==> is_digit(#[trigger] s[j]),
    ensures
        decimal_value(s.take(i)) <= decimal_value(s),
    decreases s.len() - i,
{
    if i == s.len() {
        assert(s.take(i) == s);
    } else {
        lemma_value_of_prefix(s, i + 1);
        assert(s.take(i + 1).drop_last() == s.take(i));
        assert(is_digit(s[i]));
    }
}

/// The number that the digits `s` denote, if it is at most `limit`.
fn magnitude(s: &[char], limit: u64) -> (value: Option<u64>)
    ensures
        match value {
            Some(v) => is_number(s@) && decimal_value(s@) == v && v <= limit,
            None => !(is_number(s@) && decimal_value(s@) <= limit),
        },
{
    if s.len() == 0 {
        return None;
    }
    let mut value: u64 = 0;
    for i in 0..s.len()
        invariant
            s@.len() > 0,
            forall|j: int| 0 <= j < i ==> is_digit(#[trigger] s@[j]),
            decimal_value(s@.take(i as int)) == value,
            value <= limit,
    {
        let c: char = s[i];
        if !('0' <= c && c <= '9') {
            assert(!is_digit(s@[i as int]));
            return None;
        }
        let digit: u64 = (c as u32 - '0' as u32) as u64;
        proof {
            assert(s@.take(i + 1).drop_last() == s@.take(i as int));
            if is_number(s@) {
                lemma_value_of_prefix(s@, i + 1);
            }
        }
        if value > limit / 10 {
            assert(value * 10 > limit);
            return None;
        }
        if digit > limit - value * 10 {
            return None;
        }
        value = value * 10 + digit;
    }
    assert(s@.take(s@.len() as int) == s@);
    Some(value)
}

/// Reads `s` as `str::parse::<i64>` does.
pub(crate) fn parse_i64(s: &[char]) -> (value: Option<i64>)
    ensures
        match value {
            Some(v) => parsed_i64(s@) == Some(v as int),
            None => parsed_i64(s@) is None,
        },
{
    if s.len() > 0 && s[0] == '-' {
        let digits = slice_subrange(s, 1, s.len());
        assert(digits@ == s@.drop_first());
        match magnitude(digits, 0x8000_0000_0000_0000) {
            Some(v) => if v == 0x8000_0000_0000_0000 {
                Some(i64::MIN)
            } else {
                Some(-(v as i64))
            },
            None => None,
        }
    } else if s.len() > 0 && s[0] == '+' {
        let digits = slice_subrange(s, 1, s.len());
        assert(digits@ == s@.drop_first());
        match magnitude(digits, i64::MAX as u64) {
            Some(v) => Some(v as i64),
            None => None,
        }
    } else {
        match magnitude(s, i64::MAX as u64) {
            Some(v) => Some(v as i64),
            None => None,
        }
    }
}

/// Reads `s` as `str::parse::<u32>` does.
pub(crate) fn parse_u32(s: &[char]) -> (value: Option<u32>)
    ensures
        match value {
            Some(v) => parsed_u32(s@) == Some(v as int),
            None => parsed_u32(s@) is None,
        },
{
    let read = if s.len() > 0 && s[0] == '+' {
        let digits = slice_subrange(s, 1, s.len());
        assert(digits@ == s@.drop_first());
        magnitude(digits, u32::MAX as u64)
    } else {
        magnitude(s, u32::MAX as u64)
    };
    match read {
        Some(v) => Some(v as u32),
        None => None,
    }
}

/// Whether `s` holds decimal digits only, or nothing.
pub open spec fn all_digits(s: Seq<char>) -> bool {
    forall|i: int| 0 <= i < s.len() ==> is_digit(#[trigger] s[i])
}

/// Whether `s` is a decimal fraction: digits, at least one of them, which a point may stand
/// before, among or behind.
pub open spec fn is_fraction(s: Seq<char>) -> bool {
    is_number(s) || exists|i: int|
        {
            &&& 0 <= i < s.len()
            &&& #[trigger] s[i] == '.'
            &&& all_digits(s.take(i))
            &&& all_digits(s.skip(i + 1))
            &&& s.len() > 1
        }
}

/// Whether `s` is the exponent of a number: the letter, then digits behind an optional sign.
pub open spec fn is_exponent(s: Seq<char>) -> bool {
    &&& s.len() > 0
    &&& s[0] == 'e' || s[0] == 'E'
    &&& is_number(without_sign(s.drop_first(), true))
}

/// Whether the first `i` characters of `s` are a decimal fraction and the others its exponent.
pub open spec fn is_fraction_with_exponent(s: Seq<char>, i: int) -> bool {
    &&& 0 <= i <= s.len()
    &&& is_fraction(s.take(i))
    &&& is_exponent(s.skip(i))
}

/// Whether `s` is the word whose letters are `small`, or `large` where they are capitals.
pub open spec fn is_word(s: Seq<char>, small: Seq<char>, large: Seq<char>) -> bool {
    &&& s.len() == small.len()
    &&& s.len() == large.len()
    &&& forall|i: int| 0 <= i < s.len() ==> #[trigger] s[i] == small[i] || s[i] == large[i]
}

/// Whether `str::parse::<f32>` reads a number in `s`: a decimal fraction, with an exponent or
/// without, or one of the words for what is infinite or no number, each behind an optional sign.
pub open spec fn is_float(s: Seq<char>) -> bool {
    let unsigned = without_sign(s, true);
    ||| is_fraction(unsigned)
    ||| exists|i: int| #[trigger] is_fraction_with_exponent(unsigned, i)
    ||| is_word(unsigned, "inf"@, "INF"@)
    ||| is_word(unsigned, "infinity"@, "INFINITY"@)
    ||| is_word(unsigned, "nan"@, "NAN"@)
}

/// The end of the digits that begin at `from`.
fn digits_end(s: &[char], from: usize) -> (end: usize)
    requires
        from <= s@.len(),
    ensures
        from <= end <= s@.len(),
        forall|i: int| from <= i < end ==> is_digit(#[trigger] s@[i]),
        end < s@.len() ==> !is_digit(s@[end as int]),
{
    let mut end: usize = from;
    while end < s.len() && '0' <= s[end] && s[end] <= '9'
        invariant
            from <= end <= s@.len(),
            forall|i: int| from <= i < end ==> is_digit(#[trigger] s@[i]),
        ensures
            from <= end <= s@.len(),
            forall|i: int| from <= i < end ==> is_digit(#[trigger] s@[i]),
            end < s@.len() ==> !is_digit(s@[end as int]),
        decreases s@.len() - end,
    {
        end = end + 1;
    }
    end
}

/// `s` without the sign that it may begin with.
fn unsigned_part(s: &[char]) -> (rest: &[char])
    ensures
        rest@ == without_sign(s@, true),
{
    if s.len() > 0 && (s[0] == '+' || s[0] == '-') {
        let rest = slice_subrange(s, 1, s.len());
        assert(rest@ == s@.drop_first());
        rest
    } else {
        s
    }
}

/// Whether `s` holds decimal digits only, and at least one.
fn reads_number(s: &[char]) -> (reads: bool)
    ensures
        reads == is_number(s@),
{
    s.len() > 0 && digits_end(s, 0) == s.len()
}

/// Whether `s` is the exponent of a number.
fn reads_exponent(s: &[char]) -> (reads: bool)
    ensures
        reads == is_exponent(s@),
{
    if s.len() == 0 || !(s[0] == 'e' || s[0] == 'E') {
        return false;
    }
    let rest = slice_subrange(s, 1, s.len());
    assert(rest@ == s@.drop_first());
    reads_number(unsigned_part(rest))
}

/// Whether `s` is the word whose letters are `small`, or `large` where they are capitals.
fn reads_word(s: &[char], small: &[char], large: &[char]) -> (reads: bool)
    ensures
        reads == is_word(s@, small@, large@),
{
    if s.len() != small.len() || s.len() != large.len() {
        return false;
    }
    for i in 0..s.len()
        invariant
            s@.len() == small@.len(),
            s@.len() == large@.len(),
            forall|j: int| 0 <= j < i ==> #[trigger] s@[j] == small@[j] || s@[j] == large@[j],
    {
        if s[i] != small[i] && s[i] != large[i] {
            assert(s@[i as int] != small@[i as int] && s@[i as int] != large@[i as int]);
            return false;
        }
    }
    true
}

/// A decimal fraction holds digits and at most one point.
proof fn lemma_fraction_holds_one_point(s: Seq<char>, i: int, j: int)
    requires
        is_fraction(s),
        0 <= i <= j < s.len(),
    ensures
        is_digit(s[j]) || s[j] == '.',
        i < j ==> is_digit(s[i]) || is_digit(s[j]),
{
    if !is_number(s) {
        let k = choose|k: int|
            {
                &&& 0 <= k < s.len()
                &&& #[trigger] s[k] == '.'
                &&& all_digits(s.take(k))
                &&& all_digits(s.skip(k + 1))
                &&& s.len() > 1
            };
        assert(i < k ==> is_digit(s.take(k)[i]));
        assert(j < k ==> is_digit(s.take(k)[j]));
        assert(i > k ==> is_digit(s.skip(k + 1)[i - k - 1]));
        assert(j > k ==> is_digit(s.skip(k + 1)[j - k - 1]));
    }
}

/// Whether `s` is a decimal fraction, with an exponent or without.
fn reads_decimal(s: &[char]) -> (reads: bool)
    ensures
        reads == (is_fraction(s@) || exists|i: int| #[trigger] is_fraction_with_exponent(s@, i)),
{
    let point: usize = digits_end(s, 0);
    let pointed = point < s.len() && s[point] == '.';
    let end: usize = if pointed {
        digits_end(s, point + 1)
    } else {
        point
    };
    let filled = if pointed {
        end > 1
    } else {
        end > 0
    };
    proof {
        let head = s@.take(end as int);
        if pointed {
            assert(head[point as int] == '.');
            assert(head.take(point as int) == s@.take(point as int));
            assert(all_digits(head.take(point as int)));
            assert forall|k: int| 0 <= k < head.skip(point + 1).len() implies is_digit(
                #[trigger] head.skip(point + 1)[k],
            ) by {
                assert(head.skip(point + 1)[k] == s@[point + 1 + k]);
            }
        }
        assert(filled ==> is_fraction(head));
        assert(is_fraction(head) ==> filled);
        assert forall|i: int| 0 <= i <= s@.len() && i != end implies !(is_fraction(
            #[trigger] s@.take(i),
        ) && (i == s@.len() || s@[i] == 'e' || s@[i] == 'E')) by {
            if is_fraction(s@.take(i)) && i > end {
                lemma_fraction_holds_one_point(s@.take(i), point as int, end as int);
            }
        }
        assert(s@.take(s@.len() as int) == s@);
        assert(is_fraction(s@) ==> end == s@.len());
        assert forall|i: int| #[trigger] is_fraction_with_exponent(s@, i) implies i == end by {
            assert(s@.skip(i)[0] == s@[i]);
        }
    }
    if !filled {
        return false;
    }
    if end == s.len() {
        return true;
    }
    let exponent = slice_subrange(s, end, s.len());
    assert(exponent@ == s@.skip(end as int));
    let reads = reads_exponent(exponent);
    assert(reads ==> is_fraction_with_exponent(s@, end as int));
    reads
}

/// Whether `str::parse::<f32>` reads a number in `s`.
pub(crate) fn reads_float(s: &[char]) -> (reads: bool)
    ensures
        reads == is_float(s@),
{
    let unsigned = unsigned_part(s);
    reads_decimal(unsigned) || reads_word(unsigned, &to_chars("inf"), &to_chars("INF"))
        || reads_word(unsigned, &to_chars("infinity"), &to_chars("INFINITY")) || reads_word(
        unsigned,
        &to_chars("nan"),
        &to_chars("NAN"),
    )
}

/// There are ten digits.
pub proof fn law_digits_are_ten(c: char)
    ensures
        is_digit(c) <==> c == '0' || c == '1' || c == '2' || c == '3' || c == '4' || c == '5' || c
            == '6' || c == '7' || c == '8' || c == '9',
{
}

/// Nothing is no number, and a number is made longer by a digit and by nothing else.
pub proof fn law_numbers_grow_by_digits(s: Seq<char>, c: char)
    ensures
        !is_number(Seq::empty()),
        is_number(s.push(c)) <==> is_digit(c) && (s.len() == 0 || is_number(s)),
{
    let longer = s.push(c);
    assert(longer[s.len() as int] == c);
    assert forall|i: int| 0 <= i < s.len() implies longer[i] == s[i] by {}
    if is_number(longer) {
        assert forall|i: int| 0 <= i < s.len() implies is_digit(#[trigger] s[i]) by {
            assert(is_digit(longer[i]));
        }
    }
}

/// A further digit makes the number that digits denote ten times as large and adds its own value.
/// No digits denote zero.
pub proof fn law_digit_counts_ten_times_the_next(s: Seq<char>, c: char)
    requires
        is_digit(c),
    ensures
        decimal_value(Seq::empty()) == 0,
        decimal_value(s.push(c)) == 10 * decimal_value(s) + (c as int - '0' as int),
{
    assert(s.push(c).drop_last() =~= s);
}

/// Digits behind others leave their value as it is and multiply that of the others by ten, each of
/// them.
pub proof fn law_value_of_joined_digits(a: Seq<char>, b: Seq<char>)
    requires
        forall|i: int| 0 <= i < b.len() ==> is_digit(#[trigger] b[i]),
    ensures
        decimal_value(a + b) == decimal_value(a) * pow(10, b.len()) + decimal_value(b),
    decreases b.len(),
{
    reveal(pow);
    if b.len() == 0 {
        assert(a + b =~= a);
        assert(pow(10, 0) == 1);
    } else {
        let head = b.drop_last();
        assert(is_digit(b[b.len() - 1]));
        assert forall|i: int| 0 <= i < head.len() implies is_digit(#[trigger] head[i]) by {
            assert(is_digit(b[i]));
        }
        law_value_of_joined_digits(a, head);
        law_digit_counts_ten_times_the_next(a + head, b.last());
        law_digit_counts_ten_times_the_next(head, b.last());
        assert((a + head).push(b.last()) =~= a + b);
        assert(head.push(b.last()) =~= b);
        let value = decimal_value(a) as int;
        let power = pow(10, head.len());
        assert(pow(10, b.len()) == 10 * power);
        assert(10 * (value * power) == value * (10 * power)) by (nonlinear_arith);
    }
}

/// Digits, with a sign or without, are read as the number that they denote, if it fits.
pub proof fn law_digits_are_read(digits: Seq<char>)
    requires
        is_number(digits),
    ensures
        ({
            let value = decimal_value(digits) as int;
            let small: Option<int> = if value <= 4_294_967_295 {
                Some(value)
            } else {
                None
            };
            let large: Option<int> = if value <= 9_223_372_036_854_775_807 {
                Some(value)
            } else {
                None
            };
            let negative: Option<int> = if value <= 9_223_372_036_854_775_808 {
                Some(-value)
            } else {
                None
            };
            &&& parsed_u32(digits) == small
            &&& parsed_u32(seq!['+'] + digits) == small
            &&& parsed_u32(seq!['-'] + digits) is None
            &&& parsed_i64(digits) == large
            &&& parsed_i64(seq!['+'] + digits) == large
            &&& parsed_i64(seq!['-'] + digits) == negative
        }),
{
    let plus = seq!['+'] + digits;
    let minus = seq!['-'] + digits;
    assert(plus.drop_first() =~= digits);
    assert(minus.drop_first() =~= digits);
    assert(is_digit(digits[0]));
    assert(!is_digit(minus[0]));
}

/// Nothing is read as an integer but digits, which a sign may stand before.
pub proof fn law_only_digits_are_read(s: Seq<char>)
    ensures
        parsed_u32(s) is Some ==> is_number(s) || (s.len() > 0 && s[0] == '+' && is_number(
            s.skip(1),
        )),
        parsed_i64(s) is Some ==> is_number(s) || (s.len() > 0 && (s[0] == '+' || s[0] == '-')
            && is_number(s.skip(1))),
{
    if s.len() > 0 {
        assert(s.skip(1) =~= s.drop_first());
    }
}

/// A sign makes a number of nothing else, and takes nothing of a number.
pub proof fn law_float_may_have_a_sign(s: Seq<char>)
    requires
        s.len() > 0 ==> s[0] != '+' && s[0] != '-',
    ensures
        is_float(seq!['+'] + s) == is_float(s),
        is_float(seq!['-'] + s) == is_float(s),
{
    assert((seq!['+'] + s).drop_first() =~= s);
    assert((seq!['-'] + s).drop_first() =~= s);
}

/// A decimal fraction is a number, with a point and without.
proof fn lemma_fraction(whole: Seq<char>, decimals: Seq<char>)
    requires
        all_digits(whole),
        all_digits(decimals),
        whole.len() + decimals.len() > 0,
    ensures
        whole.len() > 0 ==> is_fraction(whole),
        is_fraction(whole + seq!['.'] + decimals),
{
    let s = whole + seq!['.'] + decimals;
    let i = whole.len() as int;
    assert(s[i] == '.');
    assert(s.take(i) =~= whole);
    assert(s.skip(i + 1) =~= decimals);
    assert(s.len() > 1);
}

/// Digits with a point before, among or behind them are a number, and so are digits alone. They
/// may have an exponent: a letter, then digits, which a sign may stand before.
pub proof fn law_decimal_fractions_are_floats(
    whole: Seq<char>,
    decimals: Seq<char>,
    letter: char,
    exponent: Seq<char>,
)
    requires
        all_digits(whole),
        all_digits(decimals),
        whole.len() + decimals.len() > 0,
        letter == 'e' || letter == 'E',
        is_number(exponent),
    ensures
        ({
            let fraction = whole + seq!['.'] + decimals;
            &&& is_float(fraction)
            &&& is_float(fraction + seq![letter] + exponent)
            &&& is_float(fraction + seq![letter, '+'] + exponent)
            &&& is_float(fraction + seq![letter, '-'] + exponent)
            &&& whole.len() > 0 ==> {
                &&& is_float(whole)
                &&& is_float(whole + seq![letter] + exponent)
                &&& is_float(whole + seq![letter, '+'] + exponent)
                &&& is_float(whole + seq![letter, '-'] + exponent)
            }
        }),
{
    let fraction = whole + seq!['.'] + decimals;
    lemma_fraction(whole, decimals);
    if whole.len() > 0 {
        assert(is_digit(whole[0]));
        lemma_exponents(whole, letter, exponent);
    }
    assert(fraction[0] == '.' || is_digit(fraction[0])) by {
        if whole.len() > 0 {
            assert(is_digit(whole[0]));
        }
    }
    lemma_exponents(fraction, letter, exponent);
}

/// A fraction is a number with each form of an exponent.
proof fn lemma_exponents(fraction: Seq<char>, letter: char, exponent: Seq<char>)
    requires
        is_fraction(fraction),
        fraction.len() > 0,
        fraction[0] == '.' || is_digit(fraction[0]),
        letter == 'e' || letter == 'E',
        is_number(exponent),
    ensures
        is_float(fraction),
        is_float(fraction + seq![letter] + exponent),
        is_float(fraction + seq![letter, '+'] + exponent),
        is_float(fraction + seq![letter, '-'] + exponent),
{
    let n = fraction.len() as int;
    let plain = fraction + seq![letter] + exponent;
    let plus = fraction + seq![letter, '+'] + exponent;
    let minus = fraction + seq![letter, '-'] + exponent;
    assert(plain.take(n) =~= fraction && plus.take(n) =~= fraction && minus.take(n) =~= fraction);
    assert(plain.skip(n).drop_first() =~= exponent);
    assert(plus.skip(n).drop_first().drop_first() =~= exponent);
    assert(minus.skip(n).drop_first().drop_first() =~= exponent);
    assert(is_digit(exponent[0]));
    assert(is_fraction_with_exponent(plain, n));
    assert(is_fraction_with_exponent(plus, n));
    assert(is_fraction_with_exponent(minus, n));
}

/// What is a number and begins with no sign is one of the words, or has this form: the digits
/// before the point, the point or nothing, the digits behind it, and the exponent or nothing.
pub proof fn law_floats_are_decimal_fractions_or_words(s: Seq<char>) -> (form: (
    Seq<char>,
    Seq<char>,
    Seq<char>,
    Seq<char>,
))
    requires
        is_float(s),
        s.len() > 0 ==> s[0] != '+' && s[0] != '-',
    ensures
        ({
            let (whole, point, decimals, exponent) = form;
            ||| is_word(s, "inf"@, "INF"@)
            ||| is_word(s, "infinity"@, "INFINITY"@)
            ||| is_word(s, "nan"@, "NAN"@)
            ||| {
                &&& s == whole + point + decimals + exponent
                &&& all_digits(whole)
                &&& all_digits(decimals)
                &&& whole.len() + decimals.len() > 0
                &&& point == seq!['.'] || (point.len() == 0 && decimals.len() == 0)
                &&& exponent.len() > 0 ==> {
                    &&& exponent[0] == 'e' || exponent[0] == 'E'
                    &&& is_number(exponent.skip(1)) || (exponent.len() > 1 && (exponent[1] == '+'
                        || exponent[1] == '-') && is_number(exponent.skip(2)))
                }
            }
        }),
{
    let none = Seq::<char>::empty();
    if is_fraction(s) {
        let (whole, point, decimals) = lemma_form_of_fraction(s);
        assert(s =~= whole + point + decimals + none);
        (whole, point, decimals, none)
    } else if exists|i: int| #[trigger] is_fraction_with_exponent(s, i) {
        let n = choose|i: int| #[trigger] is_fraction_with_exponent(s, i);
        let (whole, point, decimals) = lemma_form_of_fraction(s.take(n));
        lemma_form_of_exponent(s.skip(n));
        assert(s =~= s.take(n) + s.skip(n));
        (whole, point, decimals, s.skip(n))
    } else {
        (none, none, none, none)
    }
}

/// A decimal fraction is made of the digits before the point, the point or nothing, and the digits
/// behind it.
proof fn lemma_form_of_fraction(s: Seq<char>) -> (form: (Seq<char>, Seq<char>, Seq<char>))
    requires
        is_fraction(s),
    ensures
        s == form.0 + form.1 + form.2,
        all_digits(form.0),
        all_digits(form.2),
        form.0.len() + form.2.len() > 0,
        form.1 == seq!['.'] || (form.1.len() == 0 && form.2.len() == 0),
{
    let none = Seq::<char>::empty();
    if is_number(s) {
        assert(s =~= s + none + none);
        (s, none, none)
    } else {
        let k = choose|k: int|
            {
                &&& 0 <= k < s.len()
                &&& #[trigger] s[k] == '.'
                &&& all_digits(s.take(k))
                &&& all_digits(s.skip(k + 1))
                &&& s.len() > 1
            };
        assert(s =~= s.take(k) + seq!['.'] + s.skip(k + 1));
        (s.take(k), seq!['.'], s.skip(k + 1))
    }
}

/// An exponent is made of its letter, a sign or nothing, and digits.
proof fn lemma_form_of_exponent(s: Seq<char>)
    requires
        is_exponent(s),
    ensures
        s.len() > 0,
        s[0] == 'e' || s[0] == 'E',
        is_number(s.skip(1)) || (s.len() > 1 && (s[1] == '+' || s[1] == '-') && is_number(
            s.skip(2),
        )),
{
    assert(s.skip(1) =~= s.drop_first());
    if s.len() > 1 {
        assert(s.skip(2) =~= s.drop_first().drop_first());
    }
}

/// Three words are numbers, in small letters and in capitals.
pub proof fn law_words_are_floats(s: Seq<char>)
    requires
        s == "inf"@ || s == "INF"@ || s == "infinity"@ || s == "INFINITY"@ || s == "nan"@ || s
            == "NAN"@,
    ensures
        is_float(s),
{
    reveal_strlit("inf");
    reveal_strlit("INF");
    reveal_strlit("infinity");
    reveal_strlit("INFINITY");
    reveal_strlit("nan");
    reveal_strlit("NAN");
}

/// A word has each of its letters small or as a capital, and no others.
pub proof fn law_word_is_letter_by_letter(s: Seq<char>, small: Seq<char>, large: Seq<char>, c: char)
    requires
        small.len() == large.len(),
        small.len() > 0,
    ensures
        is_word(s.push(c), small, large) <==> is_word(s, small.drop_last(), large.drop_last()) && (c
            == small.last() || c == large.last()),
        is_word(Seq::empty(), Seq::empty(), Seq::empty()),
{
    let longer = s.push(c);
    if longer.len() == small.len() {
        assert(longer[s.len() as int] == c);
        assert forall|i: int| 0 <= i < s.len() implies longer[i] == s[i] && small.drop_last()[i]
            == small[i] && large.drop_last()[i] == large[i] by {}
        if is_word(longer, small, large) {
            assert forall|i: int| 0 <= i < s.len() implies #[trigger] s[i] == small.drop_last()[i]
                || s[i] == large.drop_last()[i] by {
                assert(longer[i] == small[i] || longer[i] == large[i]);
            }
        }
        if is_word(s, small.drop_last(), large.drop_last()) && (c == small.last() || c
            == large.last()) {
            assert forall|i: int| 0 <= i < longer.len() implies #[trigger] longer[i] == small[i]
                || longer[i] == large[i] by {
                if i < s.len() {
                    assert(s[i] == small.drop_last()[i] || s[i] == large.drop_last()[i]);
                }
            }
        }
    }
}

/// Digits followed by a digit are digits, and followed by anything else they are not.
pub proof fn law_digits_grow_by_digits(s: Seq<char>, c: char)
    ensures
        all_digits(Seq::empty()),
        all_digits(s.push(c)) <==> all_digits(s) && is_digit(c),
{
    let longer = s.push(c);
    assert(longer[s.len() as int] == c);
    assert forall|i: int| 0 <= i < s.len() implies longer[i] == s[i] by {}
    if all_digits(longer) {
        assert forall|i: int| 0 <= i < s.len() implies is_digit(#[trigger] s[i]) by {
            assert(is_digit(longer[i]));
        }
    }
}

} // verus!
