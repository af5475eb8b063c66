//! The checksum field as text: two hexadecimal digits. Reading it is left to
//! the standard library; writing it is done here.

use vstd::prelude::*;
use vstd::utf8::{decode_first_scalar, decode_utf8, encode_utf8, pop_first_scalar, valid_utf8};

verus! {

/// The value of `c` as a digit: `0-9` stand for 0 to 9, and `a-z` as well as
/// `A-Z` for 10 to 35.
pub open spec fn digit_value(c: char) -> Option<nat> {
    let code = c as u32;
    if 0x30 <= code <= 0x39 {
        Some((code - 0x30) as nat)
    } else if 0x61 <= code <= 0x7a {
        Some((code - 0x61 + 10) as nat)
    } else if 0x41 <= code <= 0x5a {
        Some((code - 0x41 + 10) as nat)
    } else {
        None
    }
}

/// The number that `digits` write in base `radix`, if each of them is a digit
/// of that base.
pub open spec fn digits_value(digits: Seq<char>, radix: nat) -> Option<nat>
    decreases digits.len(),
{
    if digits.len() == 0 {
        Some(0)
    } else {
        match (digits_value(digits.drop_last(), radix), digit_value(digits.last())) {
            (Some(high), Some(low)) => if low < radix {
                Some(high * radix + low)
            } else {
                None
            },
            _ => None,
        }
    }
}

/// The byte that `text` writes in base `radix`: an optional `+`, then one or
/// more digits of that base and nothing else, naming a number up to 255.
pub open spec fn parsed_u8(text: Seq<char>, radix: nat) -> Option<u8> {
    let digits = if text.len() > 0 && text[0] == '+' {
        text.skip(1)
    } else {
        text
    };
    if digits.len() == 0 {
        None
    } else {
        match digits_value(digits, radix) {
            Some(value) => if value <= u8::MAX {
                Some(value as u8)
            } else {
                None
            },
            None => None,
        }
    }
}

/// `std::str::from_utf8`: succeeds if and only if `bytes` are valid UTF-8,
/// and then returns the text whose UTF-8 encoding they are.
#[verifier::external_body]
pub(crate) fn utf8_text(bytes: &[u8]) -> (result: Result<&str, std::str::Utf8Error>)
    ensures
        match result {
            Ok(text) => valid_utf8(bytes@) && encode_utf8(text@) == bytes@,
            Err(_) => !valid_utf8(bytes@),
        },
{
    std::str::from_utf8(bytes)
}

/// `u8::from_str_radix`: reads `text` as a number in base `radix`. It accepts
/// an optional `+` followed by digits only, at least one, and fails on
/// anything else and on a number above 255.
#[verifier::external_body]
pub(crate) fn parse_u8(text: &str, radix: u32) -> (result: Result<u8, std::num::ParseIntError>)
    requires
        2 <= radix <= 36,
    ensures
        match result {
            Ok(value) => parsed_u8(text@, radix as nat) == Some(value),
            Err(_) => parsed_u8(text@, radix as nat) is None,
        },
{
    u8::from_str_radix(text, radix)
}

/// The value of the byte `b` read as one hexadecimal digit of either case.
pub open spec fn hex_digit_value(b: u8) -> Option<u8> {
    if 0x30 <= b <= 0x39 {
        Some((b - 0x30) as u8)
    } else if 0x61 <= b <= 0x66 {
        Some((b - 0x61 + 10) as u8)
    } else if 0x41 <= b <= 0x46 {
        Some((b - 0x41 + 10) as u8)
    } else {
        None
    }
}

/// The byte that a checksum field of two bytes declares: two hexadecimal
/// digits, or `+` and one hexadecimal digit.
pub open spec fn declared_checksum(field: Seq<u8>) -> Option<u8> {
    if field.len() != 2 {
        None
    } else {
        match (hex_digit_value(field[0]), hex_digit_value(field[1])) {
            (Some(high), Some(low)) => Some((16 * high + low) as u8),
            (None, Some(low)) => if field[0] == 0x2b {
                Some(low)
            } else {
                None
            },
            _ => None,
        }
    }
}

/// The upper-case hexadecimal digit for `nibble`, as a byte.
pub open spec fn upper_hex_digit(nibble: u8) -> u8 {
    if nibble < 10 {
        (0x30 + nibble) as u8
    } else {
        (0x41 + (nibble - 10)) as u8
    }
}

/// `value` written as two upper-case hexadecimal digits.
pub open spec fn checksum_text(value: u8) -> Seq<u8> {
    seq![upper_hex_digit(value / 16), upper_hex_digit(value % 16)]
}

/// Writes `value` as two upper-case hexadecimal digits.
pub fn format_checksum(value: u8) -> (text: [u8; 2])
    ensures
        text@ == checksum_text(value),
{
    let high = value / 16;
    let low = value % 16;
    let text = [
        if high < 10 {
            0x30 + high
        } else {
            0x41 + (high - 10)
        },
        if low < 10 {
            0x30 + low
        } else {
            0x41 + (low - 10)
        },
    ];
    text
}

/// A checksum field written by `format_checksum` declares the value it was
/// written from.
pub proof fn lemma_checksum_text_declares(value: u8)
    ensures
        declared_checksum(checksum_text(value)) == Some(value),
{
}

/// Two bytes of plain ASCII are valid text, one character each.
proof fn lemma_ascii_pair(field: Seq<u8>)
    requires
        field.len() == 2,
        field[0] < 0x80,
        field[1] < 0x80,
    ensures
        valid_utf8(field),
        decode_utf8(field).len() == 2,
        decode_utf8(field)[0] as u32 == field[0],
        decode_utf8(field)[1] as u32 == field[1],
{
    let rest = pop_first_scalar(field);
    let a = field[0];
    let b = field[1];
    assert(a & 0x7f == a) by (bit_vector)
        requires
            a < 0x80,
    ;
    assert(b & 0x7f == b) by (bit_vector)
        requires
            b < 0x80,
    ;
    assert(valid_utf8(pop_first_scalar(rest)));
    assert(valid_utf8(rest));
    assert(decode_utf8(pop_first_scalar(rest)) =~= Seq::<char>::empty());
    assert(decode_utf8(rest) =~= seq![decode_first_scalar(rest) as char]);
    assert(decode_utf8(field) =~= seq![
        decode_first_scalar(field) as char,
        decode_first_scalar(rest) as char,
    ]);
}

/// Two bytes that are valid text without both being ASCII are one character
/// beyond ASCII.
proof fn lemma_wide_pair(field: Seq<u8>)
    requires
        field.len() == 2,
        valid_utf8(field),
        field[0] >= 0x80 || field[1] >= 0x80,
    ensures
        field[0] >= 0x80,
        decode_utf8(field).len() == 1,
        decode_utf8(field)[0] as u32 >= 0x80,
{
    let rest = pop_first_scalar(field);
    if field[0] < 0x80 {
        // then the second byte would have to be a character by itself
        assert(valid_utf8(rest));
    }
    assert(decode_utf8(rest) =~= Seq::<char>::empty());
    let code = decode_first_scalar(field);
    assert(code < 0x800) by {
        let a = field[0];
        let b = field[1];
        assert((((a & 0x1f) as u32) << 6) | ((b & 0x3f) as u32) < 0x800) by (bit_vector);
    }
}

/// The checksum field, read as text and then as a hexadecimal number the way
/// the standard library does it, declares what `declared_checksum` says.
pub proof fn lemma_declared_checksum(field: Seq<u8>)
    requires
        field.len() == 2,
    ensures
        valid_utf8(field) ==> parsed_u8(decode_utf8(field), 16) == declared_checksum(field),
        !valid_utf8(field) ==> declared_checksum(field) is None,
{
    if field[0] < 0x80 && field[1] < 0x80 {
        lemma_ascii_pair(field);
        reveal_with_fuel(digits_value, 3);
    } else if valid_utf8(field) {
        lemma_wide_pair(field);
        reveal_with_fuel(digits_value, 2);
    }
}

} // verus!
