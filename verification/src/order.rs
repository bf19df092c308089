//! The order of levels: a label that writes a number stands by its number
//! among such labels, and every label stands as text where a label without a
//! number is in play.

use vstd::prelude::*;
use std::cmp::Ordering;
use crate::text::chars_of;

verus! {

/// Whether `c` is one of the digits `0` to `9`.
pub open spec fn is_digit(c: char) -> bool {
    48 <= c as u32 <= 57
}

/// Whether `digits` holds decimal digits only.
pub open spec fn all_digits(digits: Seq<char>) -> bool {
    forall|i: int| 0 <= i < digits.len() ==> is_digit(#[trigger] digits[i])
}

/// The number that the decimal digits `digits` write.
pub open spec fn decimal_value(digits: Seq<char>) -> nat
    decreases digits.len(),
{
    if digits.len() == 0 {
        0
    } else {
        (10 * decimal_value(digits.drop_last()) + (digits.last() as u32 - 48)) as nat
    }
}

/// The digits of `label`: what follows its sign, where it has one.
pub open spec fn digits_of(label: Seq<char>) -> Seq<char> {
    if label.len() > 0 && (label[0] == '-' || label[0] == '+') {
        label.drop_first()
    } else {
        label
    }
}

/// The integer that `label` writes, where it writes one: an optional `+` or
/// `-`, then one or more decimal digits and nothing else, the value within
/// 32 bits.
pub open spec fn level_number(label: Seq<char>) -> Option<int> {
    let digits = digits_of(label);
    let value = if label.len() > 0 && label[0] == '-' {
        -decimal_value(digits)
    } else {
        decimal_value(digits) as int
    };
    if digits.len() > 0 && all_digits(digits) && i32::MIN <= value <= i32::MAX {
        Some(value)
    } else {
        None
    }
}

/// Whether `a` stands before `b` as text: at the first place where they
/// differ `a` has the lower character, or `a` ends there and `b` goes on.
pub open spec fn text_before(a: Seq<char>, b: Seq<char>) -> bool
    decreases a.len(),
{
    if b.len() == 0 {
        false
    } else if a.len() == 0 {
        true
    } else if a[0] != b[0] {
        (a[0] as u32) < (b[0] as u32)
    } else {
        text_before(a.drop_first(), b.drop_first())
    }
}

/// Whether level `a` stands before level `b`: by their numbers where both
/// write one, as text in every other case.
///
/// Between a label that writes a number and one that does not, the text
/// decides; so the order of three labels can turn in a circle, as with
/// `10`, `1a` and `9`.
pub open spec fn level_before(a: Seq<char>, b: Seq<char>) -> bool {
    match (level_number(a), level_number(b)) {
        (Some(x), Some(y)) => x < y,
        _ => text_before(a, b),
    }
}

/// A number with more digits written behind it is no smaller.
proof fn lemma_decimal_value_grows(digits: Seq<char>, n: int)
    requires
        0 <= n <= digits.len(),
        all_digits(digits),
    ensures
        decimal_value(digits.take(n)) <= decimal_value(digits),
    decreases digits.len() - n,
{
    if n < digits.len() {
        lemma_decimal_value_grows(digits.drop_last(), n);
        assert(digits.drop_last().take(n) == digits.take(n));
        assert(is_digit(digits[digits.len() - 1]));
    } else {
        assert(digits.take(n) == digits);
    }
}

/// The integer that `label` writes, where it writes one.
pub fn parse_level(label: &Vec<char>) -> (r: Option<i32>)
    ensures
        match level_number(label@) {
            Some(value) => r == Some(value as i32),
            None => r is None,
        },
{
    let len: usize = label.len();
    if len == 0 {
        return None;
    }
    let negative: bool = label[0] == '-';
    let start: usize = if label[0] == '-' || label[0] == '+' {
        1
    } else {
        0
    };
    if start == len {
        return None;
    }
    let ghost digits = digits_of(label@);
    assert(digits == label@.skip(start as int));
    let mut value: i64 = 0;
    let mut i: usize = start;
    assert(digits.take(0) == Seq::<char>::empty());
    while i < len
        invariant
            start <= i <= len,
            len == label.len(),
            len > 0,
            negative == (label@[0] == '-'),
            digits == digits_of(label@),
            digits == label@.skip(start as int),
            all_digits(digits.take(i - start)),
            value == decimal_value(digits.take(i - start)),
            value <= 2147483648,
        decreases len - i,
    {
        let code: u32 = label[i] as u32;
        if code < 48 || code > 57 {
            assert(!is_digit(digits[i - start]));
            return None;
        }
        assert(digits.take(i - start + 1).drop_last() == digits.take(i - start));
        value = value * 10 + (code - 48) as i64;
        i += 1;
        if value > 2147483648 {
            proof {
                if all_digits(digits) {
                    lemma_decimal_value_grows(digits, i - start);
                }
            }
            return None;
        }
    }
    assert(digits.take(i - start) == digits);
    if negative {
        Some((-value) as i32)
    } else if value == 2147483648 {
        None
    } else {
        Some(value as i32)
    }
}

/// Whether `a` stands before `b` as text.
pub fn text_precedes(a: &Vec<char>, b: &Vec<char>) -> (r: bool)
    ensures
        r == text_before(a@, b@),
{
    let mut i: usize = 0;
    assert(a@.skip(0) == a@ && b@.skip(0) == b@);
    while i < a.len() && i < b.len()
        invariant
            i <= a.len(),
            i <= b.len(),
            text_before(a@, b@) == text_before(a@.skip(i as int), b@.skip(i as int)),
        decreases a.len() - i,
    {
        if a[i] != b[i] {
            return (a[i] as u32) < (b[i] as u32);
        }
        assert(a@.skip(i as int).drop_first() == a@.skip(i + 1));
        assert(b@.skip(i as int).drop_first() == b@.skip(i + 1));
        i += 1;
    }
    i < b.len()
}

/// Whether level `a` stands before level `b`.
pub fn precedes(a: &str, b: &str) -> (r: bool)
    ensures
        r == level_before(a@, b@),
{
    let a = chars_of(a);
    let b = chars_of(b);
    match (parse_level(&a), parse_level(&b)) {
        (Some(x), Some(y)) => x < y,
        _ => text_precedes(&a, &b),
    }
}

/// How level `a` stands to level `b`: before it, behind it, or neither.
pub fn compare_levels(a: &String, b: &String) -> (r: Ordering)
    ensures
        match r {
            Ordering::Less => level_before(a@, b@),
            Ordering::Greater => level_before(b@, a@),
            Ordering::Equal => !level_before(a@, b@) && !level_before(b@, a@),
        },
{
    let a = chars_of(a.as_str());
    let b = chars_of(b.as_str());
    match (parse_level(&a), parse_level(&b)) {
        (Some(x), Some(y)) => if x < y {
            Ordering::Less
        } else if y < x {
            Ordering::Greater
        } else {
            Ordering::Equal
        },
        _ => if text_precedes(&a, &b) {
            Ordering::Less
        } else if text_precedes(&b, &a) {
            Ordering::Greater
        } else {
            Ordering::Equal
        },
    }
}

/// Whether "does not stand behind" carries over among the labels of
/// `labels`: where `b` is not before `a` and `c` not before `b`, `c` is not
/// before `a`.
pub open spec fn order_carries_over(labels: Seq<Seq<char>>) -> bool {
    forall|a: Seq<char>, b: Seq<char>, c: Seq<char>|
        #![trigger level_before(b, a), level_before(c, b)]
        labels.contains(a) && labels.contains(b) && labels.contains(c) && !level_before(b, a)
            && !level_before(c, b) ==> !level_before(c, a)
}

/// Whether the numbers of `labels` agree with the text: where a label
/// without a number stands, as text, behind one label with a number and
/// before another, the first number is the lower.
pub open spec fn numbers_agree_with_text(labels: Seq<Seq<char>>) -> bool {
    forall|i: int, j: int, k: int|
        #![trigger labels[i], labels[j], labels[k]]
        0 <= i < labels.len() && 0 <= j < labels.len() && 0 <= k < labels.len() && level_number(
            labels[i],
        ) is Some && level_number(labels[j]) is None && level_number(labels[k]) is Some
            && text_before(labels[i], labels[j]) && text_before(labels[j], labels[k])
            ==> level_number(labels[i])->0 < level_number(labels[k])->0
}

/// Whether `number` is what `parse_level` reads in `label`.
pub open spec fn is_number_of(number: Option<i32>, label: Seq<char>) -> bool {
    match level_number(label) {
        Some(value) => number == Some(value as i32),
        None => number is None,
    }
}

/// Whether the numbers of `labels` agree with the text.
#[verifier::loop_isolation(false)]
pub fn numbers_agree(labels: &Vec<String>) -> (r: bool)
    ensures
        r == numbers_agree_with_text(labels.deep_view()),
{
    let ghost given = labels.deep_view();
    let n: usize = labels.len();
    let mut texts: Vec<Vec<char>> = Vec::new();
    let mut numbers: Vec<Option<i32>> = Vec::new();
    let mut filled: usize = 0;
    while filled < n
        invariant
            filled <= n,
            texts.len() == filled,
            numbers.len() == filled,
            forall|k: int| 0 <= k < filled ==> (#[trigger] texts[k])@ == given[k],
            forall|k: int| 0 <= k < filled ==> is_number_of(#[trigger] numbers[k], given[k]),
        decreases n - filled,
    {
        let text = chars_of(labels[filled].as_str());
        numbers.push(parse_level(&text));
        texts.push(text);
        filled += 1;
    }
    let mut j: usize = 0;
    while j < n
        invariant
            j <= n,
            forall|i: int, m: int, k: int|
                #![trigger given[i], given[m], given[k]]
                0 <= i < n && 0 <= m < j && 0 <= k < n && level_number(given[i]) is Some
                    && level_number(given[m]) is None && level_number(given[k]) is Some
                    && text_before(given[i], given[m]) && text_before(given[m], given[k])
                    ==> level_number(given[i])->0 < level_number(given[k])->0,
        decreases n - j,
    {
        if numbers[j].is_none() {
            let mut below: Option<i32> = None;
            let mut above: Option<i32> = None;
            let ghost mut lower: int = 0;
            let ghost mut upper: int = 0;
            let mut i: usize = 0;
            while i < n
                invariant
                    i <= n,
                    below matches Some(b) ==> 0 <= lower < i && level_number(given[lower]) == Some(
                        b as int,
                    ) && text_before(given[lower], given[j as int]),
                    above matches Some(a) ==> 0 <= upper < i && level_number(given[upper]) == Some(
                        a as int,
                    ) && text_before(given[j as int], given[upper]),
                    forall|k: int|
                        0 <= k < i && level_number(#[trigger] given[k]) is Some && text_before(
                            given[k],
                            given[j as int],
                        ) ==> below is Some && level_number(given[k])->0 <= below->0,
                    forall|k: int|
                        0 <= k < i && level_number(#[trigger] given[k]) is Some && text_before(
                            given[j as int],
                            given[k],
                        ) ==> above is Some && above->0 <= level_number(given[k])->0,
                decreases n - i,
            {
                assert(is_number_of(numbers[i as int], given[i as int]));
                proof {
                    lemma_text_before_one_way(given[i as int], given[j as int]);
                }
                match numbers[i] {
                    Some(number) => {
                        if text_precedes(&texts[i], &texts[j]) {
                            let higher: bool = match below {
                                Some(b) => b < number,
                                None => true,
                            };
                            if higher {
                                below = Some(number);
                                proof {
                                    lower = i as int;
                                }
                            }
                        } else if text_precedes(&texts[j], &texts[i]) {
                            let deeper: bool = match above {
                                Some(a) => number < a,
                                None => true,
                            };
                            if deeper {
                                above = Some(number);
                                proof {
                                    upper = i as int;
                                }
                            }
                        }
                    },
                    None => {},
                }
                i += 1;
            }
            assert(is_number_of(numbers[j as int], given[j as int]));
            match (below, above) {
                (Some(b), Some(a)) => {
                    if b >= a {
                        assert(!numbers_agree_with_text(given)) by {
                            let _ = (given[lower], given[j as int], given[upper]);
                        }
                        return false;
                    }
                },
                _ => {},
            }
        } else {
            assert(is_number_of(numbers[j as int], given[j as int]));
        }
        j += 1;
    }
    true
}

/// Of two texts at most one stands before the other.
pub proof fn lemma_text_before_one_way(a: Seq<char>, b: Seq<char>)
    ensures
        !(text_before(a, b) && text_before(b, a)),
    decreases a.len(),
{
    if a.len() > 0 && b.len() > 0 && a[0] == b[0] {
        lemma_text_before_one_way(a.drop_first(), b.drop_first());
    }
}

/// Of two levels at most one stands before the other.
pub proof fn lemma_level_before_one_way(a: Seq<char>, b: Seq<char>)
    ensures
        !(level_before(a, b) && level_before(b, a)),
{
    lemma_text_before_one_way(a, b);
}

/// Of two different texts one stands before the other.
pub proof fn lemma_text_before_decides(a: Seq<char>, b: Seq<char>)
    ensures
        text_before(a, b) || text_before(b, a) || a == b,
    decreases a.len(),
{
    if a.len() == 0 || b.len() == 0 {
        if a.len() == 0 && b.len() == 0 {
            assert(a == b);
        }
    } else if a[0] == b[0] {
        lemma_text_before_decides(a.drop_first(), b.drop_first());
        if a.drop_first() == b.drop_first() {
            assert(a == seq![a[0]] + a.drop_first());
            assert(b == seq![b[0]] + b.drop_first());
        }
    } else {
        vstd::utf8::char_u32_cast(a[0], a[0] as u32);
        vstd::utf8::char_u32_cast(b[0], b[0] as u32);
    }
}

/// A text that stands before a second stands before every text that the
/// second stands before.
pub proof fn lemma_text_before_carries_on(a: Seq<char>, b: Seq<char>, c: Seq<char>)
    requires
        text_before(a, b),
        text_before(b, c),
    ensures
        text_before(a, c),
    decreases a.len(),
{
    if a.len() > 0 && a[0] == b[0] && b[0] == c[0] {
        lemma_text_before_carries_on(a.drop_first(), b.drop_first(), c.drop_first());
    }
}

/// As text, "does not stand behind" carries over.
proof fn lemma_text_order_carries_over(a: Seq<char>, b: Seq<char>, c: Seq<char>)
    requires
        !text_before(b, a),
        !text_before(c, b),
    ensures
        !text_before(c, a),
{
    lemma_text_before_decides(a, b);
    if a != b && text_before(c, a) {
        lemma_text_before_carries_on(c, a, b);
    }
}

/// The order carries over among the labels exactly if their numbers agree
/// with the text.
pub proof fn lemma_order_carries_over(labels: Seq<Seq<char>>)
    ensures
        order_carries_over(labels) <==> numbers_agree_with_text(labels),
{
    if numbers_agree_with_text(labels) {
        assert forall|a: Seq<char>, b: Seq<char>, c: Seq<char>|
            #![trigger level_before(b, a), level_before(c, b)]
            labels.contains(a) && labels.contains(b) && labels.contains(c) && !level_before(b, a)
                && !level_before(c, b) implies !level_before(c, a) by {
            let i = choose|i: int| 0 <= i < labels.len() && labels[i] == a;
            let j = choose|j: int| 0 <= j < labels.len() && labels[j] == b;
            let k = choose|k: int| 0 <= k < labels.len() && labels[k] == c;
            let numbered_a = level_number(a) is Some;
            let numbered_b = level_number(b) is Some;
            let numbered_c = level_number(c) is Some;
            lemma_text_before_decides(a, b);
            lemma_text_before_decides(b, c);
            lemma_text_before_decides(a, c);
            lemma_text_before_one_way(a, b);
            lemma_text_before_one_way(b, c);
            lemma_text_before_one_way(a, c);
            if numbered_a && numbered_b && numbered_c {
            } else if numbered_a && numbered_c {
                assert(text_before(labels[i], labels[j]) && text_before(labels[j], labels[k]));
            } else if numbered_b && numbered_c {
                if text_before(c, a) {
                    assert(text_before(labels[k], labels[i]) && text_before(
                        labels[i],
                        labels[j],
                    ));
                }
            } else if numbered_a && numbered_b {
                if text_before(c, a) {
                    assert(text_before(labels[j], labels[k]) && text_before(
                        labels[k],
                        labels[i],
                    ));
                }
            } else {
                lemma_text_order_carries_over(a, b, c);
            }
        }
    }
    if order_carries_over(labels) {
        assert forall|i: int, j: int, k: int|
            #![trigger labels[i], labels[j], labels[k]]
            0 <= i < labels.len() && 0 <= j < labels.len() && 0 <= k < labels.len()
                && level_number(labels[i]) is Some && level_number(labels[j]) is None
                && level_number(labels[k]) is Some && text_before(labels[i], labels[j])
                && text_before(labels[j], labels[k]) implies level_number(labels[i])->0
            < level_number(labels[k])->0 by {
            let a = labels[j];
            let b = labels[k];
            let c = labels[i];
            assert(labels.contains(a) && labels.contains(b) && labels.contains(c));
            lemma_text_before_one_way(a, b);
            if !level_before(c, b) {
                assert(!level_before(b, a));
                assert(!level_before(c, a));
            }
        }
    }
}

} // verus!
