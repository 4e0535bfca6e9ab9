//! Hex encoding and decoding through the `hex` crate.
use vstd::prelude::*;

use crate::hexlify::lower_hex;

verus! {

/// An ASCII hex digit (either case).
pub open spec fn is_hex_byte(b: u8) -> bool {
    (48 <= b <= 57) || (65 <= b <= 70) || (97 <= b <= 102)
}

/// The value of an ASCII hex digit.
pub open spec fn hex_value(b: u8) -> int {
    if b <= 57 {
        b - 48
    } else if b <= 70 {
        b - 55
    } else {
        b - 87
    }
}

/// The bytes that pairs of hex digits stand for, high nibble first.
pub open spec fn decoded(data: Seq<u8>) -> Seq<u8> {
    Seq::new(
        data.len() / 2,
        |i: int| (hex_value(data[2 * i]) * 16 + hex_value(data[2 * i + 1])) as u8,
    )
}

/// `i` is the position of the first byte of `data` that is no hex digit.
pub open spec fn first_non_hex(data: Seq<u8>, i: int) -> bool {
    &&& 0 <= i < data.len()
    &&& !is_hex_byte(data[i])
    &&& forall|j: int| 0 <= j < i ==> is_hex_byte(#[trigger] data[j])
}

/// Why hex input could not be decoded.
#[derive(Debug, Clone, Copy, PartialEq, Eq)]
pub enum HexError {
    /// A byte that is no hex digit, as a char, at the given position.
    InvalidHexCharacter { c: char, index: usize },
    /// The input has an odd number of digits.
    OddLength,
    /// The output buffer has the wrong length.
    InvalidStringLength,
}

/// Calls `hex::encode`: by its documentation, two lowercase digits per byte,
/// high nibble first.
#[verifier::external_body]
pub(crate) fn hex_encode(bytes: &[u8]) -> (res: String)
    ensures
        res@ == lower_hex(bytes@),
{
    hex::encode(bytes)
}

/// What `hex::decode` gives for `data`: an odd number of digits is
/// `OddLength`; otherwise the first byte that is no hex digit (either case) is
/// reported as a char with its position; otherwise each pair of digits gives
/// one byte.
pub open spec fn hex_decode_outcome(data: Seq<u8>, res: Result<Vec<u8>, HexError>) -> bool {
    if data.len() % 2 == 1 {
        res == Err::<Vec<u8>, HexError>(HexError::OddLength)
    } else if forall|j: int| 0 <= j < data.len() ==> is_hex_byte(#[trigger] data[j]) {
        res matches Ok(v) && v@ == decoded(data)
    } else {
        exists|i: int|
            first_non_hex(data, i) && res == Err::<Vec<u8>, HexError>(
                HexError::InvalidHexCharacter { c: data[i] as char, index: i as usize },
            )
    }
}

/// Calls `hex::decode` (`FromHex` for `Vec<u8>`); its source gives the
/// outcome described by `hex_decode_outcome`.
#[verifier::external_body]
pub(crate) fn hex_decode(data: &[u8]) -> (res: Result<Vec<u8>, HexError>)
    ensures
        hex_decode_outcome(data@, res),
{
    match hex::decode(data) {
        Ok(v) => Ok(v),
        Err(hex::FromHexError::InvalidHexCharacter { c, index }) => Err(
            HexError::InvalidHexCharacter { c, index },
        ),
        Err(hex::FromHexError::OddLength) => Err(HexError::OddLength),
        Err(hex::FromHexError::InvalidStringLength) => Err(HexError::InvalidStringLength),
    }
}

} // verus!
