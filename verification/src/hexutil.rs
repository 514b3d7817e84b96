//! Hexadecimal decoding of configured addresses and key material,
//! with its exact specification.

use crate::BridgeError;
use vstd::prelude::*;
use vstd::string::StringSliceAdditionalSpecFns;

verus! {

/// Whether `b` is the ASCII code of a hexadecimal digit.
pub open spec fn is_hex_digit(b: u8) -> bool {
    (48 <= b && b <= 57) || (65 <= b && b <= 70) || (97 <= b && b <= 102)
}

/// The numeric value of the hexadecimal digit with ASCII code `b`.
pub open spec fn hex_digit_value(b: u8) -> u8
    recommends
        is_hex_digit(b),
{
    if 48 <= b && b <= 57 {
        (b - 48) as u8
    } else if 65 <= b && b <= 70 {
        (b - 55) as u8
    } else {
        (b - 87) as u8
    }
}

/// Whether `s` is an even run of hexadecimal digits.
pub open spec fn is_valid_hex(s: Seq<u8>) -> bool {
    s.len() % 2 == 0 && (forall|i: int| 0 <= i < s.len() ==> is_hex_digit(#[trigger] s[i]))
}

/// The bytes encoded by an even run of hexadecimal digits, two digits
/// to a byte, high digit first.
pub open spec fn spec_hex_decode(s: Seq<u8>) -> Seq<u8>
    recommends
        is_valid_hex(s),
{
    Seq::new(
        s.len() / 2,
        |i: int| ((hex_digit_value(s[2 * i]) * 16 + hex_digit_value(s[2 * i + 1])) as u8),
    )
}

/// Relies on hex::decode: succeeds exactly on an even run of
/// hexadecimal digits (upper or lower case) and returns one byte per
/// digit pair, high digit first; the input is read as UTF-8 bytes.
#[verifier::external_body]
pub fn hex_decode(s: &str) -> (r: Result<Vec<u8>, BridgeError>)
    ensures
        r is Ok <==> is_valid_hex(s.spec_bytes()),
        r matches Ok(v) ==> v@ == spec_hex_decode(s.spec_bytes()),
        r matches Err(e) ==> e == BridgeError::InvalidHex,
{
    match hex::decode(s) {
        Ok(v) => Ok(v),
        Err(_) => Err(BridgeError::InvalidHex),
    }
}

} // verus!
