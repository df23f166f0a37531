use vstd::prelude::*;

use crate::bytestr::{DIGIT_NINE, DIGIT_ZERO};

verus! {

/// ASCII 'A'.
pub const UPPER_A: u8 = 65;

/// ASCII 'F'.
pub const UPPER_F: u8 = 70;

/// ASCII 'a'.
pub const LOWER_A: u8 = 97;

/// ASCII 'f'.
pub const LOWER_F: u8 = 102;

pub open spec fn is_hex_digit(c: u8) -> bool {
    ||| DIGIT_ZERO <= c <= DIGIT_NINE
    ||| UPPER_A <= c <= UPPER_F
    ||| LOWER_A <= c <= LOWER_F
}

/// The value of one hex digit, either case.
pub open spec fn hex_digit_value(c: u8) -> u8 {
    if DIGIT_ZERO <= c <= DIGIT_NINE {
        (c - DIGIT_ZERO) as u8
    } else if UPPER_A <= c <= UPPER_F {
        (c - UPPER_A + 10) as u8
    } else {
        (c - LOWER_A + 10) as u8
    }
}

/// Whether `s` is a well-formed hex numeral: an even count of hex digits.
pub open spec fn hex_valid(s: Seq<u8>) -> bool {
    s.len() % 2 == 0 && (forall|i: int| 0 <= i < s.len() ==> is_hex_digit(s[i]))
}

/// The bytes that the hex numeral `s` spells, two digits per byte, high
/// digit first.
pub open spec fn hex_bytes(s: Seq<u8>) -> Seq<u8> {
    Seq::new(
        (s.len() / 2) as nat,
        |i: int| (hex_digit_value(s[2 * i]) * 16 + hex_digit_value(s[2 * i + 1])) as u8,
    )
}

#[verifier::external_type_specification]
#[verifier::external_body]
pub struct ExFromHexError(hex::FromHexError);

/// Relies on hex::decode: it succeeds exactly on an even count of hex digits
/// of either case, and returns the bytes they spell, high digit of each pair
/// first.
#[verifier::external_body]
pub(crate) fn decode_hex(s: &[u8]) -> (r: Result<Vec<u8>, hex::FromHexError>)
    ensures
        r is Ok <==> hex_valid(s@),
        r matches Ok(b) ==> b@ == hex_bytes(s@),
{
    hex::decode(s)
}

} // verus!
