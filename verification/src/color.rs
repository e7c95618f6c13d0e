//! Display colours written as hexadecimal codes.

use crate::text::{strip_leading, without_leading};
use vstd::prelude::*;

verus! {

/// The value of a hexadecimal digit, in either case.
pub open spec fn hex_value(c: char) -> Option<u8> {
    let code = c as u32;
    if 0x30 <= code <= 0x39 {
        Some((code - 0x30) as u8)
    } else if 0x41 <= code <= 0x46 {
        Some((code - 0x41 + 10) as u8)
    } else if 0x61 <= code <= 0x66 {
        Some((code - 0x61 + 10) as u8)
    } else {
        None
    }
}

/// The byte that two characters spell in base 16: two digits, or a plus sign
/// and one digit.
pub open spec fn hex_pair(high: char, low: char) -> Option<u8> {
    match hex_value(low) {
        Some(units) => if high == '+' {
            Some(units)
        } else {
            match hex_value(high) {
                Some(sixteens) => Some((sixteens * 16 + units) as u8),
                None => None,
            }
        },
        None => None,
    }
}

/// The colour that a code spells: the code without the hash signs in front of
/// it has to be three pairs of characters, for red, green and blue.
pub open spec fn rgb_of(hex: Seq<char>) -> Option<(u8, u8, u8)> {
    let digits = without_leading(hex, '#');
    if digits.len() != 6 {
        None
    } else {
        match (
            hex_pair(digits[0], digits[1]),
            hex_pair(digits[2], digits[3]),
            hex_pair(digits[4], digits[5]),
        ) {
            (Some(r), Some(g), Some(b)) => Some((r, g, b)),
            _ => None,
        }
    }
}

/// Reads a hexadecimal digit.
pub fn hex_digit(c: char) -> (value: Option<u8>)
    ensures
        value == hex_value(c),
        value matches Some(v) ==> v < 16,
{
    let code: u32 = c as u32;
    if 0x30 <= code && code <= 0x39 {
        Some((code - 0x30) as u8)
    } else if 0x41 <= code && code <= 0x46 {
        Some((code - 0x41 + 10) as u8)
    } else if 0x61 <= code && code <= 0x66 {
        Some((code - 0x61 + 10) as u8)
    } else {
        None
    }
}

/// Reads the byte that two characters spell in base 16.
pub fn hex_byte(high: char, low: char) -> (value: Option<u8>)
    ensures
        value == hex_pair(high, low),
{
    let units = match hex_digit(low) {
        Some(units) => units,
        None => {
            return None;
        },
    };
    if high == '+' {
        return Some(units);
    }
    match hex_digit(high) {
        Some(sixteens) => Some(sixteens * 16 + units),
        None => None,
    }
}

/// Reads a colour code such as `#F85009` into its red, green and blue parts.
pub fn hex_to_rgb(hex: &str) -> (rgb: Option<(u8, u8, u8)>)
    ensures
        rgb == rgb_of(hex@),
{
    let digits = strip_leading(hex, '#');
    if digits.unicode_len() != 6 {
        return None;
    }
    let r = hex_byte(digits.get_char(0), digits.get_char(1));
    let g = hex_byte(digits.get_char(2), digits.get_char(3));
    let b = hex_byte(digits.get_char(4), digits.get_char(5));
    match (r, g, b) {
        (Some(r), Some(g), Some(b)) => Some((r, g, b)),
        _ => None,
    }
}

} // verus!
