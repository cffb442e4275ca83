//! Short codes of digits and letters as numbers.
use vstd::prelude::*;
use vstd::string::StrSliceExecFns;
use crate::text::push_char;

verus! {

/// A code of digits and capital letters, kept as the number that it
/// spells: up to 36 different characters make the digits of the number.
pub type AlphaNumeric = RadixCode<36>;

/// A code that spells a number in the radix `R`, kept as that number.
#[derive(Clone, Copy, PartialEq, Eq, Hash, Debug)]
pub struct RadixCode<const R: u64>(pub u64);

/// The digit that a character stands for in a radix: the digits count from
/// 0 and the letters, small or capital, from 10. A character that stands for
/// more than the radix has digits for stands for none.
pub open spec fn digit_of(c: char, radix: u64) -> Option<u64> {
    let value: Option<int> = if '0' <= c <= '9' {
        Some(c as int - '0' as int)
    } else if 'a' <= c <= 'z' {
        Some(c as int - 'a' as int + 10)
    } else if 'A' <= c <= 'Z' {
        Some(c as int - 'A' as int + 10)
    } else {
        None
    };
    match value {
        Some(v) => if v < radix {
            Some(v as u64)
        } else {
            None
        },
        None => None,
    }
}

/// The number that a code spells: nothing where a character is no digit of
/// the radix, or where the number is more than 64 bits hold.
pub open spec fn number_of(code: Seq<char>, radix: u64) -> Option<u64>
    decreases code.len(),
{
    if code.len() == 0 {
        Some(0)
    } else {
        match (number_of(code.drop_last(), radix), digit_of(code.last(), radix)) {
            (Some(sum), Some(digit)) => if sum * radix + digit <= u64::MAX {
                Some((sum * radix + digit) as u64)
            } else {
                None
            },
            _ => None,
        }
    }
}

/// The character that stands for a digit: `0` to `9`, then `A` to `Z`.
pub open spec fn char_of(digit: u64) -> char {
    if digit < 10 {
        ('0' as u8 + digit) as char
    } else {
        ('A' as u8 + (digit - 10)) as char
    }
}

/// The code that spells a number: no character for 0.
pub open spec fn code_of(num: u64, radix: u64) -> Seq<char>
    decreases num,
{
    if num == 0 || radix < 2 {
        Seq::empty()
    } else {
        proof {
            assert(num / radix < num) by (nonlinear_arith)
                requires
                    num > 0,
                    radix >= 2,
            ;
        }
        code_of(num / radix, radix).push(char_of(num % radix))
    }
}

/// The digit that a character stands for in a radix.
pub fn to_digit(c: char, radix: u64) -> (digit: Option<u64>)
    ensures
        digit == digit_of(c, radix),
{
    let value: u64 = if '0' <= c && c <= '9' {
        c as u64 - '0' as u64
    } else if 'a' <= c && c <= 'z' {
        c as u64 - 'a' as u64 + 10
    } else if 'A' <= c && c <= 'Z' {
        c as u64 - 'A' as u64 + 10
    } else {
        return None;
    };
    if value < radix {
        Some(value)
    } else {
        None
    }
}

/// The number that a code spells.
pub fn code_to_num<const R: u64>(str_code: &str) -> (num: Option<u64>)
    ensures
        num == number_of(str_code@, R),
{
    let len: usize = str_code.unicode_len();
    let mut sum: u64 = 0;
    let mut i: usize = 0;
    assert(str_code@.take(0) =~= Seq::<char>::empty());
    while i < len
        invariant
            len == str_code@.len(),
            i <= len,
            number_of(str_code@.take(i as int), R) == Some(sum),
        decreases len - i,
    {
        let c = str_code.get_char(i);
        proof {
            assert(str_code@.take(i + 1).drop_last() =~= str_code@.take(i as int));
            assert(str_code@.take(i + 1).last() == c);
            lemma_number_of_fails_on(str_code@, R, i + 1);
        }
        let shifted: u64 = match sum.checked_mul(R) {
            Some(shifted) => shifted,
            None => {
                return None;
            },
        };
        let digit: u64 = match to_digit(c, R) {
            Some(digit) => digit,
            None => {
                return None;
            },
        };
        sum = match shifted.checked_add(digit) {
            Some(sum) => sum,
            None => {
                return None;
            },
        };
        i += 1;
    }
    assert(str_code@.take(len as int) =~= str_code@);
    Some(sum)
}

/// A code of which a beginning spells no number spells none.
proof fn lemma_number_of_fails_on(code: Seq<char>, radix: u64, upto: int)
    requires
        0 <= upto <= code.len(),
    ensures
        number_of(code.take(upto), radix) is None ==> number_of(code, radix) is None,
    decreases code.len() - upto,
{
    if upto < code.len() {
        lemma_number_of_fails_on(code, radix, upto + 1);
        assert(code.take(upto + 1).drop_last() =~= code.take(upto));
    } else {
        assert(code.take(upto) =~= code);
    }
}

/// The character that stands for a digit.
fn from_digit(digit: u64) -> (c: char)
    requires
        digit < 36,
    ensures
        c == char_of(digit),
{
    if digit < 10 {
        (48u8 + digit as u8) as char
    } else {
        (65u8 + (digit as u8 - 10)) as char
    }
}

/// The code that spells a number.
pub fn num_to_code<const R: u64>(num: u64) -> (code: Option<String>)
    requires
        2 <= R <= 36,
    ensures
        code matches Some(text) && text@ == code_of(num, R),
{
    let mut digits: Vec<char> = Vec::new();
    let mut left: u64 = num;
    while left > 0
        invariant
            2 <= R <= 36,
            code_of(num, R) == code_of(left, R) + digits@.reverse(),
        decreases left,
    {
        let c = from_digit(left % R);
        proof {
            assert(code_of(left / R, R).push(c) + digits@.reverse() =~= code_of(left / R, R)
                + digits@.push(c).reverse());
        }
        digits.push(c);
        left = left / R;
    }
    let mut text = String::new();
    let mut i: usize = digits.len();
    proof {
        assert(code_of(0, R) + digits@.reverse() =~= digits@.reverse());
    }
    while i > 0
        invariant
            i <= digits@.len(),
            text@ == digits@.reverse().take(digits@.len() - i),
        decreases i,
    {
        i -= 1;
        push_char(&mut text, digits[i]);
        proof {
            assert(text@ =~= digits@.reverse().take(digits@.len() - i));
        }
    }
    proof {
        assert(digits@.reverse().take(digits@.len() as int) =~= digits@.reverse());
    }
    Some(text)
}

impl<const R: u64> RadixCode<R> {
    /// The code that a text spells, where it spells a number.
    pub fn new(str_code: &str) -> (code: Option<Self>)
        ensures
            code == match number_of(str_code@, R) {
                Some(num) => Some(RadixCode::<R>(num)),
                None => None,
            },
    {
        match code_to_num::<R>(str_code) {
            Some(num) => Some(Self(num)),
            None => None,
        }
    }

    /// The code as text.
    pub fn to_text(&self) -> (text: String)
        requires
            2 <= R <= 36,
        ensures
            text@ == code_of(self.0, R),
    {
        num_to_code::<R>(self.0).unwrap()
    }
}

} // verus!
