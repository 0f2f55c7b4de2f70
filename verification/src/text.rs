//! Byte-text character classes used by addresses and the wire codec.

use vstd::prelude::*;
use crate::numerals::is_digit;

verus! {

/// A byte that may appear verbatim inside a JSON string: printable ASCII
/// other than the quote and the backslash.
pub open spec fn json_safe_byte(b: u8) -> bool {
    &&& 0x20 <= b <= 0x7e
    &&& b != 0x22
    &&& b != 0x5c
}

pub open spec fn json_safe(s: Seq<u8>) -> bool {
    forall|i: int| 0 <= i < s.len() ==> json_safe_byte(#[trigger] s[i])
}

/// A lowercase or uppercase hexadecimal digit.
pub open spec fn hex_byte(b: u8) -> bool {
    ||| is_digit(b)
    ||| 0x61 <= b <= 0x66
    ||| 0x41 <= b <= 0x46
}

/// A character of the base-58 alphabet: digits one to nine, and letters
/// other than uppercase I and O and lowercase l.
pub open spec fn base58_byte(b: u8) -> bool {
    ||| 0x31 <= b <= 0x39
    ||| (0x41 <= b <= 0x5a && b != 0x49 && b != 0x4f)
    ||| (0x61 <= b <= 0x7a && b != 0x6c)
}

pub fn is_json_safe(s: &Vec<u8>) -> (r: bool)
    ensures
        r == json_safe(s@),
{
    let mut i: usize = 0;
    while i < s.len()
        invariant
            i <= s@.len(),
            forall|m: int| 0 <= m < i ==> json_safe_byte(#[trigger] s@[m]),
        decreases s@.len() - i,
    {
        let b = s[i];
        if !(0x20 <= b && b <= 0x7e && b != 0x22 && b != 0x5c) {
            return false;
        }
        i = i + 1;
    }
    true
}

} // verus!
