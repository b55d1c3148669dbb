//! Decimal numbers as text.

use vstd::prelude::*;

verus! {

/// The character of a decimal digit.
pub open spec fn digit(value: nat) -> char {
    (48 + value) as char
}

/// A natural number in decimal, without leading zeros.
pub open spec fn decimal(number: nat) -> Seq<char>
    decreases number,
{
    if number < 10 {
        seq![digit(number)]
    } else {
        decimal(number / 10).push(digit(number % 10))
    }
}

/// An integer in decimal, with a minus sign where it is negative.
pub open spec fn signed_decimal(number: int) -> Seq<char> {
    if number < 0 {
        seq!['-'] + decimal((-number) as nat)
    } else {
        decimal(number as nat)
    }
}

/// Writes a number in decimal.
pub fn decimal_text(number: u64) -> (text: String)
    ensures
        text@ == decimal(number as nat),
    decreases number,
{
    if number < 10 {
        let mut text = String::new();
        text.push(((48 + number) as u8) as char);
        assert(text@ =~= decimal(number as nat));
        text
    } else {
        let mut text = decimal_text(number / 10);
        text.push(((48 + number % 10) as u8) as char);
        text
    }
}

/// Writes an integer in decimal.
pub fn signed_text(number: i32) -> (text: String)
    ensures
        text@ == signed_decimal(number as int),
{
    if number < 0 {
        let mut text = String::new();
        text.push('-');
        let magnitude = decimal_text((-(number as i64)) as u64);
        crate::text::append(&mut text, magnitude.as_str());
        assert(text@ =~= signed_decimal(number as int));
        text
    } else {
        decimal_text(number as u64)
    }
}

/// Whether a character is a decimal digit.
pub open spec fn is_digit(character: char) -> bool {
    '0' <= character && character <= '9'
}

/// The number that a sequence of digits stands for.
pub open spec fn digits_value(digits: Seq<char>) -> nat
    decreases digits.len(),
{
    if digits.len() == 0 {
        0
    } else {
        digits_value(digits.drop_last()) * 10 + (digits.last() as nat - 48) as nat
    }
}

/// A text without a leading plus sign.
pub open spec fn unsigned_part(text: Seq<char>) -> Seq<char> {
    if text.len() > 0 && text[0] == '+' {
        text.drop_first()
    } else {
        text
    }
}

/// The 32-bit number that a text stands for: at least one digit, perhaps behind
/// a plus sign, and nothing else, in range.
pub open spec fn parsed(text: Seq<char>) -> Option<u32> {
    let digits = unsigned_part(text);
    if digits.len() > 0 && (forall|i: int| 0 <= i < digits.len() ==> is_digit(#[trigger] digits[i]))
        && digits_value(digits) <= u32::MAX {
        Some(digits_value(digits) as u32)
    } else {
        None
    }
}

/// Reads a 32-bit number.
pub fn parse_number(text: &str) -> (number: Option<u32>)
    ensures
        number == parsed(text@),
{
    let chars = crate::text::characters(text);
    let start: usize = if chars.len() > 0 && chars[0] == '+' {
        1
    } else {
        0
    };
    let ghost digits = unsigned_part(text@);
    assert(digits =~= text@.skip(start as int));
    if start == chars.len() {
        return None;
    }
    let mut value: u64 = 0;
    let mut overflow = false;
    let mut index: usize = start;
    while index < chars.len()
        invariant
            start <= index <= chars@.len(),
            chars@ == text@,
            digits == unsigned_part(text@),
            digits == text@.skip(start as int),
            forall|i: int| 0 <= i < index - start ==> is_digit(#[trigger] digits[i]),
            !overflow ==> value == digits_value(digits.take(index - start)) && value <= u32::MAX,
            overflow ==> digits_value(digits.take(index - start)) > u32::MAX,
        decreases chars@.len() - index,
    {
        let character = chars[index];
        let ghost seen = index - start;
        assert(digits[seen] == character);
        if !('0' <= character && character <= '9') {
            assert(!is_digit(digits[seen]));
            return None;
        }
        assert(digits.take(seen + 1).drop_last() =~= digits.take(seen));
        if !overflow {
            value = value * 10 + (character as u64 - 48);
            if value > 0xffff_ffff {
                overflow = true;
            }
        }
        index = index + 1;
    }
    assert(digits.take(index - start) =~= digits);
    if overflow {
        None
    } else {
        Some(value as u32)
    }
}

proof fn lemma_decimal_digits(number: nat)
    ensures
        decimal(number).len() > 0,
        forall|i: int| 0 <= i < decimal(number).len() ==> is_digit(#[trigger] decimal(number)[i]),
        digits_value(decimal(number)) == number,
    decreases number,
{
    if number < 10 {
        assert(decimal(number).drop_last() =~= Seq::<char>::empty());
        assert(digits_value(decimal(number).drop_last()) == 0);
    } else {
        lemma_decimal_digits(number / 10);
        assert(decimal(number).drop_last() =~= decimal(number / 10));
    }
}

/// Reading a number that was written in decimal gives it back.
pub proof fn law_written_numbers_are_read_back(number: u32)
    ensures
        parsed(decimal(number as nat)) == Some(number),
{
    lemma_decimal_digits(number as nat);
    let text = decimal(number as nat);
    assert(is_digit(text[0]));
    assert(unsigned_part(text) == text);
}

} // verus!
