//! The miner's receiving identity as it is configured: a hexadecimal text
//! of the identity's bytes.

use vstd::prelude::*;
use vstd::string::StringSliceAdditionalSpecFns;

verus! {

/// The number of bytes of a receiving identity.
pub const ADDRESS_LENGTH: usize = 32;

/// Why a text is no receiving identity.
#[derive(PartialEq, Eq, Structural, Clone, Copy, Debug)]
pub enum AddressError {
    /// The text is not made of pairs of hexadecimal digits.
    NotHex,
    /// The text does not stand for as many bytes as an identity has.
    WrongLength,
}

/// The value of the ASCII hexadecimal digit `c`, and -1 for any other byte.
pub open spec fn digit_value(c: u8) -> int {
    if 0x30 <= c <= 0x39 {
        c - 0x30
    } else if 0x41 <= c <= 0x46 {
        c - 0x41 + 10
    } else if 0x61 <= c <= 0x66 {
        c - 0x61 + 10
    } else {
        -1
    }
}

/// The text is made of pairs of hexadecimal digits.
pub open spec fn is_hex(text: Seq<u8>) -> bool {
    text.len() % 2 == 0 && forall|i: int| 0 <= i < text.len() ==> digit_value(#[trigger] text[i]) >= 0
}

/// The bytes that a hexadecimal text stands for: each pair of digits is a
/// byte, the first digit its upper half.
pub open spec fn hex_bytes(text: Seq<u8>) -> Seq<u8> {
    Seq::new(
        (text.len() / 2) as nat,
        |i: int| (digit_value(text[2 * i]) * 16 + digit_value(text[2 * i + 1])) as u8,
    )
}

/// The error of `hex::decode`, carried as it is.
#[verifier::external_type_specification]
#[verifier::external_body]
pub struct ExFromHexError(hex::FromHexError);

/// `hex::decode` on a slice of bytes. What is said of it here is read off
/// the crate's source and taken on trust: it succeeds exactly on an even
/// number of bytes that are all hexadecimal digits, of either case, and then
/// gives one byte for each pair of digits, the first digit of a pair in the
/// upper four bits.
#[verifier::external_body]
fn decode_hex(text: &[u8]) -> (decoded: Result<Vec<u8>, hex::FromHexError>)
    ensures
        decoded is Ok <==> is_hex(text@),
        decoded is Ok ==> decoded->Ok_0@ == hex_bytes(text@),
{
    hex::decode(text)
}

/// Reads a receiving identity from its hexadecimal text: 64 digits, of
/// either case, for 32 bytes.
pub fn parse_address(text: &str) -> (parsed: Result<Vec<u8>, AddressError>)
    ensures
        match parsed {
            Ok(bytes) => is_hex(text.spec_bytes()) && text.spec_bytes().len() == 2
                * ADDRESS_LENGTH && bytes@ == hex_bytes(text.spec_bytes()),
            Err(AddressError::NotHex) => !is_hex(text.spec_bytes()),
            Err(AddressError::WrongLength) => is_hex(text.spec_bytes()) && text.spec_bytes().len()
                != 2 * ADDRESS_LENGTH,
        },
{
    match decode_hex(text.as_bytes()) {
        Err(_) => Err(AddressError::NotHex),
        Ok(bytes) => {
            if bytes.len() == ADDRESS_LENGTH {
                Ok(bytes)
            } else {
                Err(AddressError::WrongLength)
            }
        },
    }
}

} // verus!
