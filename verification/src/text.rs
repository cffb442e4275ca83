//! Picking names apart.
use vstd::prelude::*;
use vstd::string::StrSliceExecFns;
use crate::util::{digit_of, number_of, to_digit};

verus! {

/// The parts of a text between its separators: one more than it has
/// separators.
pub open spec fn fields_of(text: Seq<char>, separator: char) -> Seq<Seq<char>>
    decreases text.len(),
{
    if text.len() == 0 {
        seq![Seq::empty()]
    } else {
        let before = fields_of(text.drop_last(), separator);
        if text.last() == separator {
            before.push(Seq::empty())
        } else {
            before.update(before.len() - 1, before.last().push(text.last()))
        }
    }
}

/// A text always has a part.
pub proof fn lemma_fields_of_is_not_empty(text: Seq<char>, separator: char)
    ensures
        fields_of(text, separator).len() >= 1,
    decreases text.len(),
{
    if text.len() > 0 {
        lemma_fields_of_is_not_empty(text.drop_last(), separator);
    }
}

/// `String::push`: the character is put at the end of the text.
#[verifier::external_body]
pub(crate) fn push_char(text: &mut String, c: char)
    ensures
        final(text)@ == old(text)@.push(c),
{
    text.push(c);
}

/// The part of a text at a place among its parts.
pub fn nth_field(text: &str, separator: char, n: usize) -> (field: Option<String>)
    ensures
        match field {
            Some(f) => n < fields_of(text@, separator).len() && f@ == fields_of(
                text@,
                separator,
            )[n as int],
            None => n >= fields_of(text@, separator).len(),
        },
{
    let len: usize = text.unicode_len();
    let mut field = String::new();
    let mut at: usize = 0;
    let mut i: usize = 0;
    proof {
        assert(text@.take(0) =~= Seq::<char>::empty());
    }
    while i < len
        invariant
            len == text@.len(),
            i <= len,
            at <= i,
            at <= n,
            fields_of(text@.take(i as int), separator).len() == at + 1,
            at == n ==> field@ == fields_of(text@.take(i as int), separator).last(),
            at < n ==> field@.len() == 0,
        decreases len - i,
    {
        let c = text.get_char(i);
        proof {
            assert(text@.take(i + 1).drop_last() =~= text@.take(i as int));
            assert(text@.take(i + 1).last() == c);
        }
        if c == separator {
            if at == n {
                proof {
                    lemma_field_stays(text@, separator, i + 1, n as int);
                }
                return Some(field);
            }
            at += 1;
        } else if at == n {
            push_char(&mut field, c);
        }
        i += 1;
    }
    proof {
        assert(text@.take(len as int) =~= text@);
    }
    if at == n {
        Some(field)
    } else {
        None
    }
}

/// A part that a separator has closed stays as it is, however the text goes on.
proof fn lemma_field_stays(text: Seq<char>, separator: char, upto: int, n: int)
    requires
        0 <= upto <= text.len(),
        0 <= n < fields_of(text.take(upto), separator).len() - 1,
    ensures
        n < fields_of(text, separator).len(),
        fields_of(text, separator)[n] == fields_of(text.take(upto), separator)[n],
    decreases text.len() - upto,
{
    if upto < text.len() {
        assert(text.take(upto + 1).drop_last() =~= text.take(upto));
        lemma_field_stays(text, separator, upto + 1, n);
    } else {
        assert(text.take(upto) =~= text);
    }
}

/// Whether a character is white space.
pub open spec fn is_space(c: char) -> bool {
    ||| c == ' '
    ||| '\u{9}' <= c <= '\u{d}'
    ||| c == '\u{85}'
    ||| c == '\u{a0}'
    ||| c == '\u{1680}'
    ||| '\u{2000}' <= c <= '\u{200a}'
    ||| c == '\u{2028}'
    ||| c == '\u{2029}'
    ||| c == '\u{202f}'
    ||| c == '\u{205f}'
    ||| c == '\u{3000}'
}

/// Whether a character is white space.
pub fn is_white(c: char) -> (white: bool)
    ensures
        white == is_space(c),
{
    c == ' ' || ('\u{9}' <= c && c <= '\u{d}') || c == '\u{85}' || c == '\u{a0}' || c == '\u{1680}'
        || ('\u{2000}' <= c && c <= '\u{200a}') || c == '\u{2028}' || c == '\u{2029}' || c
        == '\u{202f}' || c == '\u{205f}' || c == '\u{3000}'
}

/// A text without the white space at its end.
pub open spec fn trimmed(text: Seq<char>) -> Seq<char>
    decreases text.len(),
{
    if text.len() > 0 && is_space(text.last()) {
        trimmed(text.drop_last())
    } else {
        text
    }
}

/// The first characters of a text, `count` of them or as many as it has.
pub open spec fn head_of(text: Seq<char>, count: nat) -> Seq<char> {
    if count <= text.len() {
        text.take(count as int)
    } else {
        text
    }
}

/// The first characters of a text, `count` of them or as many as it has.
pub fn first_chars(text: &str, count: usize) -> (head: String)
    ensures
        head@ == head_of(text@, count as nat),
{
    let len: usize = text.unicode_len();
    let upto: usize = if count <= len {
        count
    } else {
        len
    };
    let mut head = String::new();
    let mut i: usize = 0;
    while i < upto
        invariant
            i <= upto <= len,
            len == text@.len(),
            head@ == text@.take(i as int),
        decreases upto - i,
    {
        let c = text.get_char(i);
        push_char(&mut head, c);
        proof {
            assert(text@.take(i + 1) =~= text@.take(i as int).push(c));
        }
        i += 1;
    }
    proof {
        if count > len {
            assert(text@.take(len as int) =~= text@);
        }
    }
    head
}

/// A text without the white space at its end.
pub fn trim_end(text: &str) -> (short: String)
    ensures
        short@ == trimmed(text@),
{
    let mut end: usize = text.unicode_len();
    proof {
        assert(text@.take(end as int) =~= text@);
    }
    while end > 0 && is_white(text.get_char(end - 1))
        invariant
            end <= text@.len(),
            trimmed(text@) == trimmed(text@.take(end as int)),
        decreases end,
    {
        proof {
            assert(text@.take(end as int).last() == text@[end - 1]);
            assert(text@.take(end as int).drop_last() =~= text@.take(end - 1));
        }
        end -= 1;
    }
    proof {
        if end > 0 {
            assert(text@.take(end as int).last() == text@[end - 1]);
        }
    }
    let short = first_chars(text, end);
    short
}

/// The number up to 255 that a text spells in decimal digits, with or
/// without a plus sign before them.
pub open spec fn u8_of(text: Seq<char>) -> Option<u8> {
    let digits = if text.len() > 0 && text[0] == '+' {
        text.skip(1)
    } else {
        text
    };
    if digits.len() == 0 {
        None
    } else {
        match number_of(digits, 10) {
            Some(n) => if n <= 255 {
                Some(n as u8)
            } else {
                None
            },
            None => None,
        }
    }
}

/// Whether every character is a decimal digit.
pub open spec fn all_digits(text: Seq<char>) -> bool {
    forall|i: int| 0 <= i < text.len() ==> digit_of(#[trigger] text[i], 10) is Some
}

/// The value of decimal digits as a whole number, however large.
pub open spec fn value_of(digits: Seq<char>) -> nat
    decreases digits.len(),
{
    if digits.len() == 0 {
        0
    } else {
        value_of(digits.drop_last()) * 10 + match digit_of(digits.last(), 10) {
            Some(d) => d as nat,
            None => 0,
        }
    }
}

/// The number that digits spell is their value, where the value is no more
/// than 64 bits hold, and nothing where it is more or where a character is
/// no digit.
proof fn lemma_number_is_value(digits: Seq<char>)
    ensures
        number_of(digits, 10) == if all_digits(digits) && value_of(digits) <= u64::MAX {
            Some(value_of(digits) as u64)
        } else {
            None
        },
    decreases digits.len(),
{
    if digits.len() > 0 {
        let front = digits.drop_last();
        lemma_number_is_value(front);
        if all_digits(digits) {
            assert forall|i: int| 0 <= i < front.len() implies digit_of(
                #[trigger] front[i],
                10,
            ) is Some by {
                assert(front[i] == digits[i]);
            }
            assert(digit_of(digits[digits.len() - 1], 10) is Some);
        } else {
            if all_digits(front) && digit_of(digits.last(), 10) is Some {
                assert forall|i: int| 0 <= i < digits.len() implies digit_of(
                    #[trigger] digits[i],
                    10,
                ) is Some by {
                    if i < front.len() {
                        assert(front[i] == digits[i]);
                    }
                }
            }
        }
    }
}

/// The number up to `max` that a text spells in decimal digits, with or
/// without a plus sign before them: nothing where there is no digit, where
/// a character is none, or where the number is larger.
pub open spec fn number_upto(text: Seq<char>, max: u64) -> Option<u64> {
    let digits = if text.len() > 0 && text[0] == '+' {
        text.skip(1)
    } else {
        text
    };
    if digits.len() > 0 && all_digits(digits) && value_of(digits) <= max {
        Some(value_of(digits) as u64)
    } else {
        None
    }
}

/// The number up to `max` that a text spells.
pub fn parse_number(text: &str, max: u64) -> (number: Option<u64>)
    ensures
        number == number_upto(text@, max),
{
    let len: usize = text.unicode_len();
    if len == 0 {
        return None;
    }
    let start: usize = if text.get_char(0) == '+' {
        1
    } else {
        0
    };
    if start == len {
        return None;
    }
    let ghost digits = text@.skip(start as int);
    let mut value: u64 = 0;
    let mut i: usize = start;
    proof {
        assert(digits.take(0) =~= Seq::<char>::empty());
        if start == 0 {
            assert(digits =~= text@);
        }
    }
    while i < len
        invariant
            len == text@.len(),
            start <= i <= len,
            digits == text@.skip(start as int),
            digits.len() > 0,
            number_upto(text@, max) == if all_digits(digits) && value_of(digits) <= max {
                Some(value_of(digits) as u64)
            } else {
                None
            },
            all_digits(digits.take(i - start)),
            value == value_of(digits.take(i - start)),
            value <= max,
        decreases len - i,
    {
        let c = text.get_char(i);
        proof {
            assert(digits.take(i - start + 1).drop_last() =~= digits.take(i - start));
            assert(digits.take(i - start + 1).last() == c);
            assert(digits[i - start] == c);
            lemma_value_grows(digits, i - start + 1);
        }
        let digit: u64 = match to_digit(c, 10) {
            Some(digit) => digit,
            None => {
                return None;
            },
        };
        if digit > max || value > (max - digit) / 10 {
            return None;
        }
        value = value * 10 + digit;
        proof {
            assert forall|k: int| 0 <= k < digits.take(i - start + 1).len() implies digit_of(
                #[trigger] digits.take(i - start + 1)[k],
                10,
            ) is Some by {
                if k < i - start {
                    assert(digits.take(i - start)[k] == digits[k]);
                }
            }
        }
        i += 1;
    }
    proof {
        assert(digits.take(len - start) =~= digits);
    }
    Some(value)
}

/// The number up to 255 that a text spells.
pub fn parse_u8(text: &str) -> (number: Option<u8>)
    ensures
        number == u8_of(text@),
{
    proof {
        let digits = if text@.len() > 0 && text@[0] == '+' {
            text@.skip(1)
        } else {
            text@
        };
        lemma_number_is_value(digits);
    }
    match parse_number(text, 255) {
        Some(n) => Some(n as u8),
        None => None,
    }
}

/// The value of the first digits is no more than the value of them all.
proof fn lemma_value_grows(digits: Seq<char>, upto: int)
    requires
        0 <= upto <= digits.len(),
    ensures
        value_of(digits.take(upto)) <= value_of(digits),
    decreases digits.len() - upto,
{
    if upto < digits.len() {
        lemma_value_grows(digits, upto + 1);
        assert(digits.take(upto + 1).drop_last() =~= digits.take(upto));
    } else {
        assert(digits.take(upto) =~= digits);
    }
}

} // verus!
