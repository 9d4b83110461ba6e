//! Text helpers shared by the report renderer and the option parsers:
//! decimal numbers in both directions, and joining with a separator.

use vstd::prelude::*;

verus! {

/// The character that stands for the decimal digit `d`.
pub open spec fn digit_char(d: int) -> char {
    if d == 0 {
        '0'
    } else if d == 1 {
        '1'
    } else if d == 2 {
        '2'
    } else if d == 3 {
        '3'
    } else if d == 4 {
        '4'
    } else if d == 5 {
        '5'
    } else if d == 6 {
        '6'
    } else if d == 7 {
        '7'
    } else if d == 8 {
        '8'
    } else {
        '9'
    }
}

/// The decimal numeral of `n`, without sign or leading zeros.
pub open spec fn decimal(n: nat) -> Seq<char>
    decreases n,
{
    if n < 10 {
        seq![digit_char(n as int)]
    } else {
        decimal(n / 10).push(digit_char((n % 10) as int))
    }
}

/// Whether `c` is one of the ten ASCII digits.
pub open spec fn is_digit(c: char) -> bool {
    '0' <= c && c <= '9'
}

/// The value of an ASCII digit.
pub open spec fn digit_value(c: char) -> nat {
    (c as u32 - '0' as u32) as nat
}

/// The number that a sequence of digits denotes; zero for the empty sequence.
pub open spec fn digits_value(digits: Seq<char>) -> nat
    decreases digits.len(),
{
    if digits.len() == 0 {
        0
    } else {
        digits_value(digits.drop_last()) * 10 + digit_value(digits.last())
    }
}

/// Whether every character of `text` is an ASCII digit.
pub open spec fn all_digits(text: Seq<char>) -> bool {
    forall|i: int| 0 <= i < text.len() ==> is_digit(#[trigger] text[i])
}

/// What is left of `text` once one leading `+` is taken off.
pub open spec fn unsigned_part(text: Seq<char>) -> Seq<char> {
    if text.len() > 0 && text[0] == '+' {
        text.skip(1)
    } else {
        text
    }
}

/// The number that `text` denotes when it is an optional `+` followed by one
/// or more ASCII digits, and `None` for any other text.
pub open spec fn parse_decimal(text: Seq<char>) -> Option<nat> {
    let digits = unsigned_part(text);
    if digits.len() > 0 && all_digits(digits) {
        Some(digits_value(digits))
    } else {
        None
    }
}

/// `parse_decimal`, but only numbers up to `max` count.
pub open spec fn parse_bounded(text: Seq<char>, max: nat) -> Option<nat> {
    match parse_decimal(text) {
        Some(n) => if n <= max {
            Some(n)
        } else {
            None
        },
        None => None,
    }
}

/// `parts` written one after another with `separator` between neighbours.
pub open spec fn join(parts: Seq<Seq<char>>, separator: Seq<char>) -> Seq<char>
    decreases parts.len(),
{
    if parts.len() == 0 {
        Seq::empty()
    } else if parts.len() == 1 {
        parts[0]
    } else {
        join(parts.drop_last(), separator) + separator + parts.last()
    }
}

/// The text of a list of strings.
pub open spec fn strings_view(strings: Seq<String>) -> Seq<Seq<char>> {
    strings.map_values(|string: String| string@)
}

/// A longer run of digits never denotes a smaller number than its beginning.
pub proof fn lemma_digits_value_monotone(digits: Seq<char>, k: int)
    requires
        0 <= k <= digits.len(),
    ensures
        digits_value(digits.take(k)) <= digits_value(digits),
    decreases digits.len(),
{
    if k == digits.len() {
        assert(digits.take(k) =~= digits);
    } else {
        lemma_digits_value_monotone(digits.drop_last(), k);
        assert(digits.drop_last().take(k) =~= digits.take(k));
    }
}

/// The characters of `text`, one element each.
pub fn to_chars(text: &str) -> (chars: Vec<char>)
    ensures
        chars@ == text@,
{
    let mut chars: Vec<char> = Vec::new();
    for c in it: text.chars()
        invariant
            it.seq() == text@,
            chars@ == text@.take(it.index() as int),
    {
        chars.push(c);
        assert(text@.take(it.index() + 1) =~= text@.take(it.index() as int).push(c));
    }
    assert(text@.take(text@.len() as int) =~= text@);
    chars
}


/// The one-character text for a decimal digit.
fn digit_text(d: u8) -> (text: &'static str)
    requires
        d < 10,
    ensures
        text@ == seq![digit_char(d as int)],
{
    proof {
        reveal_strlit("0");
        reveal_strlit("1");
        reveal_strlit("2");
        reveal_strlit("3");
        reveal_strlit("4");
        reveal_strlit("5");
        reveal_strlit("6");
        reveal_strlit("7");
        reveal_strlit("8");
        reveal_strlit("9");
    }
    let text = if d == 0 {
        "0"
    } else if d == 1 {
        "1"
    } else if d == 2 {
        "2"
    } else if d == 3 {
        "3"
    } else if d == 4 {
        "4"
    } else if d == 5 {
        "5"
    } else if d == 6 {
        "6"
    } else if d == 7 {
        "7"
    } else if d == 8 {
        "8"
    } else {
        "9"
    };
    assert(text@ =~= seq![digit_char(d as int)]);
    text
}

/// Appends the decimal numeral of `n` to `text`.
pub fn push_decimal(text: &mut String, n: u64)
    ensures
        final(text)@ == old(text)@ + decimal(n as nat),
    decreases n,
{
    if n >= 10 {
        push_decimal(text, n / 10);
    }
    text.append(digit_text((n % 10) as u8));
    proof {
        if n >= 10 {
            assert(final(text)@ =~= old(text)@ + decimal(n as nat));
        } else {
            assert(final(text)@ =~= old(text)@ + decimal(n as nat));
        }
    }
}

/// Reads a decimal number no larger than `max`: an optional `+`, then one or
/// more ASCII digits. Anything else, a larger number included, is `None`.
pub fn parse_number(text: &str, max: u64) -> (number: Option<u64>)
    ensures
        number == match parse_bounded(text@, max as nat) {
            Some(n) => Some(n as u64),
            None => None,
        },
{
    let chars = to_chars(text);
    let start: usize = if chars.len() > 0 && chars[0] == '+' {
        1
    } else {
        0
    };
    let ghost digits = unsigned_part(text@);
    assert(digits =~= chars@.skip(start as int));
    if chars.len() == start {
        return None;
    }
    let mut value: u64 = 0;
    let mut i: usize = start;
    while i < chars.len()
        invariant
            start <= i <= chars.len(),
            digits == chars@.skip(start as int),
            digits == unsigned_part(text@),
            all_digits(digits.take(i - start)),
            value == digits_value(digits.take(i - start)),
            value <= max,
        decreases chars.len() - i,
    {
        let c = chars[i];
        let ghost seen = digits.take(i - start);
        let ghost more = digits.take(i - start + 1);
        assert(more.drop_last() =~= seen);
        assert(more.last() == c);
        if !(c >= '0' && c <= '9') {
            assert(digits[i - start] == c);
            assert(!is_digit(c));
            assert(!all_digits(digits));
            return None;
        }
        let d: u64 = (c as u32 - '0' as u32) as u64;
        if d > max || value > (max - d) / 10 {
            proof {
                assert(digits_value(more) == value * 10 + d);
                assert(digits_value(more) > max);
                if all_digits(digits) {
                    lemma_digits_value_monotone(digits, i - start + 1);
                }
            }
            return None;
        }
        value = value * 10 + d;
        assert(all_digits(more)) by {
            assert forall|j: int| 0 <= j < more.len() implies is_digit(#[trigger] more[j]) by {
                if j < seen.len() {
                    assert(more[j] == seen[j]);
                }
            }
        }
        i += 1;
    }
    assert(digits.take(i - start) =~= digits);
    Some(value)
}

/// Joins `parts` with `separator` between neighbours.
pub fn join_strings(parts: &Vec<String>, separator: &str) -> (joined: String)
    ensures
        joined@ == join(strings_view(parts@), separator@),
{
    let ghost views = strings_view(parts@);
    let mut joined = String::new();
    let mut i: usize = 0;
    while i < parts.len()
        invariant
            i <= parts.len(),
            views == strings_view(parts@),
            joined@ == join(views.take(i as int), separator@),
        decreases parts.len() - i,
    {
        if i > 0 {
            joined.append(separator);
        }
        joined.append(parts[i].as_str());
        proof {
            let next = views.take(i + 1);
            assert(next.drop_last() =~= views.take(i as int));
            assert(next.last() == parts@[i as int]@);
            if i == 0 {
                assert(joined@ =~= next[0]);
            }
        }
        i += 1;
    }
    assert(views.take(i as int) =~= views);
    joined
}


/// Whether two texts hold the same characters.
pub fn same_text(a: &str, b: &str) -> (same: bool)
    ensures
        same == (a@ == b@),
{
    let a_chars = to_chars(a);
    let b_chars = to_chars(b);
    if a_chars.len() != b_chars.len() {
        return false;
    }
    let mut i: usize = 0;
    while i < a_chars.len()
        invariant
            i <= a_chars.len(),
            a_chars@.len() == b_chars@.len(),
            a_chars@ == a@,
            b_chars@ == b@,
            forall|j: int| 0 <= j < i ==> a_chars@[j] == b_chars@[j],
        decreases a_chars.len() - i,
    {
        if a_chars[i] != b_chars[i] {
            return false;
        }
        i += 1;
    }
    assert(a@ =~= b@);
    true
}

/// The first position from `from` on at which `text` holds `mark`, or the
/// length of `text` where it holds none.
pub open spec fn position(text: Seq<char>, mark: char, from: int) -> int
    decreases text.len() - from,
{
    if from >= text.len() {
        text.len() as int
    } else if text[from] == mark {
        from
    } else {
        position(text, mark, from + 1)
    }
}

/// The parts of `text` before and after the first `mark`, if it holds one.
pub open spec fn split_at_first(text: Seq<char>, mark: char) -> Option<(Seq<char>, Seq<char>)> {
    let at = position(text, mark, 0);
    if at < text.len() {
        Some((text.take(at), text.skip(at + 1)))
    } else {
        None
    }
}

/// Splits `text` at the first `mark`: what stands before it and what stands
/// after it. `None` where `text` holds no `mark`.
pub fn split_once<'a>(text: &'a str, mark: char) -> (parts: Option<(&'a str, &'a str)>)
    ensures
        match split_at_first(text@, mark) {
            Some((before, after)) => parts matches Some((head, tail)) && head@ == before && tail@
                == after,
            None => parts is None,
        },
{
    let chars = to_chars(text);
    let mut at: usize = 0;
    while at < chars.len() && chars[at] != mark
        invariant
            at <= chars.len(),
            chars@ == text@,
            position(text@, mark, 0) == position(text@, mark, at as int),
        decreases chars.len() - at,
    {
        at += 1;
    }
    if at < chars.len() {
        let head = text.substring_char(0, at);
        let tail = text.substring_char(at + 1, chars.len());
        assert(head@ =~= text@.take(at as int));
        assert(tail@ =~= text@.skip(at + 1));
        Some((head, tail))
    } else {
        None
    }
}

/// What is left of `text` behind its first character, where that is `mark`.
pub fn strip_prefix<'a>(text: &'a str, mark: char) -> (rest: Option<&'a str>)
    ensures
        rest matches Some(tail) ==> text@.len() > 0 && text@[0] == mark && tail@ == text@.skip(1),
        rest is None ==> text@.len() == 0 || text@[0] != mark,
{
    let chars = to_chars(text);
    if chars.len() > 0 && chars[0] == mark {
        let tail = text.substring_char(1, chars.len());
        assert(tail@ =~= text@.skip(1));
        Some(tail)
    } else {
        None
    }
}

/// What is left of `text` in front of its last character, where that is
/// `mark`.
pub fn strip_suffix<'a>(text: &'a str, mark: char) -> (rest: Option<&'a str>)
    ensures
        rest matches Some(head) ==> text@.len() > 0 && text@.last() == mark && head@
            == text@.drop_last(),
        rest is None ==> text@.len() == 0 || text@.last() != mark,
{
    let chars = to_chars(text);
    if chars.len() > 0 && chars[chars.len() - 1] == mark {
        let head = text.substring_char(0, chars.len() - 1);
        assert(head@ =~= text@.drop_last());
        Some(head)
    } else {
        None
    }
}

/// Ten to the power of `n`.
pub open spec fn pow10(n: nat) -> nat
    decreases n,
{
    if n == 0 {
        1
    } else {
        10 * pow10((n - 1) as nat)
    }
}

/// Whether `digits` is a numeral in its shortest form: one digit at least,
/// digits only, and no zero in front of another digit.
pub open spec fn canonical(digits: Seq<char>) -> bool {
    &&& digits.len() > 0
    &&& all_digits(digits)
    &&& digits.len() > 1 ==> digits[0] != '0'
}

/// A run of digits denotes a number below ten to the power of its length,
/// and where it begins with a digit other than zero, no less than ten to the
/// power of one less.
pub proof fn lemma_digits_value_bounds(digits: Seq<char>)
    requires
        all_digits(digits),
    ensures
        digits_value(digits) < pow10(digits.len()),
        digits.len() > 0 && digits[0] != '0' ==> digits_value(digits) >= pow10(
            (digits.len() - 1) as nat,
        ),
    decreases digits.len(),
{
    if digits.len() > 0 {
        let front = digits.drop_last();
        assert(all_digits(front)) by {
            assert forall|i: int| 0 <= i < front.len() implies is_digit(#[trigger] front[i]) by {
                assert(front[i] == digits[i]);
            }
        }
        lemma_digits_value_bounds(front);
        assert(is_digit(digits[digits.len() - 1]));
        if digits.len() > 1 {
            assert(front[0] == digits[0]);
        }
    }
}

/// A zero in front of a run of digits does not change the number.
pub proof fn lemma_leading_zero(digits: Seq<char>)
    requires
        digits.len() > 0,
        digits[0] == '0',
    ensures
        digits_value(digits) == digits_value(digits.skip(1)),
    decreases digits.len(),
{
    if digits.len() == 1 {
        assert(digits.drop_last().len() == 0);
        assert(digits.last() == '0');
        assert(digits.skip(1).len() == 0);
        assert(digits_value(digits.drop_last()) == 0);
        assert(digits_value(digits.skip(1)) == 0);
    } else {
        lemma_leading_zero(digits.drop_last());
        assert(digits.drop_last().skip(1) =~= digits.skip(1).drop_last());
        assert(digits.skip(1).last() == digits.last());
    }
}

/// Of two numerals in shortest form the shorter one denotes the smaller
/// number.
pub proof fn lemma_shorter_numeral_smaller(a: Seq<char>, b: Seq<char>)
    requires
        canonical(a),
        canonical(b),
        a.len() < b.len(),
    ensures
        digits_value(a) < digits_value(b),
{
    lemma_digits_value_bounds(a);
    lemma_digits_value_bounds(b);
    lemma_pow10_monotone(a.len(), (b.len() - 1) as nat);
}

/// Powers of ten grow with the exponent.
pub proof fn lemma_pow10_monotone(n: nat, m: nat)
    requires
        n <= m,
    ensures
        pow10(n) <= pow10(m),
        pow10(n) > 0,
    decreases m,
{
    if n < m {
        lemma_pow10_monotone(n, (m - 1) as nat);
    } else if n > 0 {
        lemma_pow10_monotone((n - 1) as nat, (n - 1) as nat);
    }
}

/// Of two runs of digits of one length, the one with the smaller digit at the
/// first position where they differ denotes the smaller number, however many
/// digits of them are taken beyond that position.
pub proof fn lemma_first_difference_decides(a: Seq<char>, b: Seq<char>, at: int, upto: int)
    requires
        all_digits(a),
        all_digits(b),
        a.len() == b.len(),
        0 <= at < upto <= a.len(),
        a.take(at) == b.take(at),
        a[at] < b[at],
    ensures
        digits_value(a.take(upto)) < digits_value(b.take(upto)),
    decreases upto,
{
    assert(a.take(upto).drop_last() =~= a.take(upto - 1));
    assert(b.take(upto).drop_last() =~= b.take(upto - 1));
    assert(is_digit(a[upto - 1]) && is_digit(b[upto - 1]));
    if upto > at + 1 {
        lemma_first_difference_decides(a, b, at, upto - 1);
    } else {
        assert(a.take(at) == b.take(at));
    }
}

/// The digits of the number that `text` denotes, in shortest form, where it
/// denotes one: where it is an optional `+` followed by one or more digits.
pub fn numeral_of(text: &str) -> (numeral: Option<Vec<char>>)
    ensures
        match parse_decimal(text@) {
            Some(number) => numeral matches Some(digits) && canonical(digits@) && digits_value(
                digits@,
            ) == number,
            None => numeral is None,
        },
{
    let chars = to_chars(text);
    let start: usize = if chars.len() > 0 && chars[0] == '+' {
        1
    } else {
        0
    };
    let ghost all = unsigned_part(text@);
    assert(all =~= chars@.skip(start as int));
    if chars.len() == start {
        return None;
    }
    let mut i: usize = start;
    while i < chars.len()
        invariant
            start <= i <= chars.len(),
            all == chars@.skip(start as int),
            all == unsigned_part(text@),
            forall|j: int| 0 <= j < i - start ==> is_digit(#[trigger] all[j]),
        decreases chars.len() - i,
    {
        let c = chars[i];
        if !(c >= '0' && c <= '9') {
            assert(!is_digit(all[i - start]));
            return None;
        }
        i += 1;
    }
    assert(all_digits(all));
    let mut first: usize = start;
    while first + 1 < chars.len() && chars[first] == '0'
        invariant
            start <= first < chars.len(),
            all == chars@.skip(start as int),
            all_digits(all),
            digits_value(all) == digits_value(chars@.skip(first as int)),
        decreases chars.len() - first,
    {
        proof {
            lemma_leading_zero(chars@.skip(first as int));
            assert(chars@.skip(first as int).skip(1) =~= chars@.skip(first + 1));
        }
        first += 1;
    }
    let ghost kept = chars@.skip(first as int);
    let mut digits: Vec<char> = Vec::new();
    let mut next: usize = first;
    while next < chars.len()
        invariant
            first <= next <= chars.len(),
            kept == chars@.skip(first as int),
            digits@ == kept.take(next - first),
        decreases chars.len() - next,
    {
        digits.push(chars[next]);
        assert(kept.take(next - first + 1) =~= kept.take(next - first).push(chars@[next as int]));
        next += 1;
    }
    proof {
        assert(digits@ =~= kept);
        assert forall|j: int| 0 <= j < kept.len() implies is_digit(#[trigger] kept[j]) by {
            assert(kept[j] == all[j + first - start]);
        }
    }
    Some(digits)
}

/// Whether the numeral `a` denotes a smaller number than the numeral `b`,
/// both in shortest form.
pub fn numeral_precedes(a: &Vec<char>, b: &Vec<char>) -> (before: bool)
    requires
        canonical(a@),
        canonical(b@),
    ensures
        before == (digits_value(a@) < digits_value(b@)),
{
    if a.len() != b.len() {
        proof {
            if a.len() < b.len() {
                lemma_shorter_numeral_smaller(a@, b@);
            } else {
                lemma_shorter_numeral_smaller(b@, a@);
            }
        }
        return a.len() < b.len();
    }
    let mut i: usize = 0;
    while i < a.len()
        invariant
            i <= a.len(),
            a.len() == b.len(),
            canonical(a@),
            canonical(b@),
            a@.take(i as int) == b@.take(i as int),
        decreases a.len() - i,
    {
        if a[i] != b[i] {
            proof {
                assert(a@.take(a@.len() as int) =~= a@);
                assert(b@.take(b@.len() as int) =~= b@);
                if a@[i as int] < b@[i as int] {
                    lemma_first_difference_decides(a@, b@, i as int, a@.len() as int);
                } else {
                    lemma_first_difference_decides(b@, a@, i as int, a@.len() as int);
                }
            }
            return a[i] < b[i];
        }
        assert(a@.take(i + 1) =~= a@.take(i as int).push(a@[i as int]));
        assert(b@.take(i + 1) =~= b@.take(i as int).push(b@[i as int]));
        i += 1;
    }
    proof {
        assert(a@.take(a@.len() as int) =~= a@);
        assert(b@.take(b@.len() as int) =~= b@);
    }
    false
}

} // verus!
