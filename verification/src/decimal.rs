//! Reading a worker count: an unsigned decimal number of 16 bits, as text.

use vstd::prelude::*;

verus! {

/// The byte of the sign that may stand before the digits.
pub const PLUS: u8 = 0x2b;

/// The byte of the digit zero.
pub const ZERO: u8 = 0x30;

/// The byte of the digit nine.
pub const NINE: u8 = 0x39;

/// Whether every byte is a decimal digit.
pub open spec fn all_digits(text: Seq<u8>) -> bool {
    forall|i: int| 0 <= i < text.len() ==> ZERO <= #[trigger] text[i] <= NINE
}

/// The number that a sequence of decimal digits denotes, the first digit
/// counting most. Leading zeros do not change it.
pub open spec fn digits_value(digits: Seq<u8>) -> nat
    decreases digits.len(),
{
    if digits.len() == 0 {
        0
    } else {
        digits_value(digits.drop_last()) * 10 + (digits.last() - ZERO) as nat
    }
}

/// The digits of a number's text: the text without the one plus sign that
/// may stand in front.
pub open spec fn unsigned_part(text: Seq<u8>) -> Seq<u8> {
    if text.len() > 0 && text[0] == PLUS {
        text.drop_first()
    } else {
        text
    }
}

/// The number of 16 bits that `text` denotes: an optional plus sign, then
/// one digit at least and nothing but digits, with a value of 65535 at most.
/// Any other text, the empty one and a lone sign among them, denotes none.
pub open spec fn decimal_u16(text: Seq<u8>) -> Option<u16> {
    let digits = unsigned_part(text);
    if digits.len() > 0 && all_digits(digits) && digits_value(digits) <= u16::MAX {
        Some(digits_value(digits) as u16)
    } else {
        None
    }
}

/// Digits that are added behind a number do not make it smaller.
proof fn lemma_value_grows(digits: Seq<u8>, n: int)
    requires
        all_digits(digits),
        0 <= n <= digits.len(),
    ensures
        digits_value(digits.take(n)) <= digits_value(digits),
    decreases digits.len() - n,
{
    if n < digits.len() {
        lemma_value_grows(digits, n + 1);
        assert(digits.take(n + 1).drop_last() =~= digits.take(n));
    } else {
        assert(digits.take(n) =~= digits);
    }
}

/// Reads a number of 16 bits from its text. The value is built up in 32
/// bits and compared with the largest number of 16 bits after each digit, so
/// a text of any length is read without overflow.
pub fn parse_u16(text: &[u8]) -> (number: Option<u16>)
    ensures
        number == decimal_u16(text@),
{
    let start: usize = if text.len() > 0 && text[0] == PLUS {
        1
    } else {
        0
    };
    let ghost digits = unsigned_part(text@);
    if start == text.len() {
        return None;
    }
    let mut value: u32 = 0;
    let mut i: usize = start;
    while i < text.len()
        invariant
            start <= i <= text.len(),
            digits == text@.skip(start as int),
            digits == unsigned_part(text@),
            all_digits(digits.take(i - start)),
            value == digits_value(digits.take(i - start)),
            value <= u16::MAX,
        decreases text.len() - i,
    {
        let byte = text[i];
        assert(digits[i - start] == byte);
        assert(digits.take(i - start + 1).drop_last() =~= digits.take(i - start));
        if byte < ZERO || byte > NINE {
            return None;
        }
        value = value * 10 + (byte - ZERO) as u32;
        if value > u16::MAX as u32 {
            proof {
                if all_digits(digits) {
                    lemma_value_grows(digits, i - start + 1);
                }
            }
            return None;
        }
        i += 1;
    }
    assert(digits.take(i - start) =~= digits);
    Some(value as u16)
}

} // verus!
