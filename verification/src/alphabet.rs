//! A 36-symbol working alphabet: the uppercase letters followed by
//! the ten digits.

use vstd::prelude::*;

verus! {

/// The symbol of a byte, if the byte names a letter (of either case)
/// or a digit: letters map to 0..=25, digits to 26..=35.
pub open spec fn spec_char_to_symbol(b: u8) -> Option<u8> {
    let up = if 97 <= b <= 122 {
        (b - 32) as u8
    } else {
        b
    };
    if 65 <= up <= 90 {
        Some((up - 65) as u8)
    } else if 48 <= up <= 57 {
        Some((26 + (up - 48)) as u8)
    } else {
        None
    }
}

/// The character of a symbol taken modulo the alphabet size.
pub open spec fn spec_symbol_to_char(s: u8) -> u8 {
    let m = s as int % 36;
    if m < 26 {
        (65 + m) as u8
    } else {
        (48 + (m - 26)) as u8
    }
}

/// Maps a raw input byte to its symbol in the 36-letter alphabet,
/// folding lowercase letters onto uppercase; anything outside the
/// alphabet maps to nothing.
pub fn char_to_symbol(b: u8) -> (r: Option<u8>)
    ensures
        r == spec_char_to_symbol(b),
{
    let up = if b >= 97 && b <= 122 {
        b - 32
    } else {
        b
    };
    if up >= 65 && up <= 90 {
        Some(up - 65)
    } else if up >= 48 && up <= 57 {
        Some(26 + (up - 48))
    } else {
        None
    }
}

/// Maps a symbol back to its display byte, reducing the symbol modulo
/// the alphabet size first.
pub fn symbol_to_char(s: u8) -> (r: u8)
    ensures
        r == spec_symbol_to_char(s),
{
    let m = s % 36;
    if m < 26 {
        65 + m
    } else {
        48 + (m - 26)
    }
}

} // verus!
