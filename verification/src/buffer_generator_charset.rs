//! Character-set flags for the random buffer generator. Combine them with
//! bitwise `|`; a charset is usable when at least one flag is present.

use vstd::prelude::*;

verus! {

/// Include the digits 0..9 (10 characters).
pub const NUMBER: u8 = 1;

/// Include the lower case letters a..z (26 characters).
pub const LOWER_CASE: u8 = 2;

/// Include the upper case letters A..Z (26 characters).
pub const UPPER_CASE: u8 = 4;

/// Include the printable symbols (32 characters).
pub const SYMBOL: u8 = 8;

/// Include the unreadable characters (162 characters).
pub const UNREADABLE: u8 = 16;

/// Include every character, unreadable ones too (256 characters).
pub const ALL: u8 = 31;

/// Whether the charset holds at least one valid flag.
pub fn validate_charset(charset: u8) -> (r: bool)
    ensures
        r == (charset & ALL != 0),
{
    proof {
        assert(charset & 1 <= 1 && charset & 2 <= 2 && charset & 4 <= 4 && charset & 8 <= 8
            && charset & 16 <= 16) by (bit_vector);
        assert((charset & 1) + (charset & 2) + (charset & 4) + (charset & 8) + (charset & 16) == (
        charset & 31)) by (bit_vector);
    }
    ((charset & NUMBER) + (charset & LOWER_CASE) + (charset & UPPER_CASE) + (charset & SYMBOL) + (
    charset & UNREADABLE)) > 0
}

} // verus!
