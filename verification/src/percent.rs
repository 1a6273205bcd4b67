//! Percent-encoding: every `%` that two hexadecimal digits follow stands for
//! the byte that the digits spell.

use vstd::prelude::*;
use vstd::utf8::{decode_utf8, valid_utf8};

verus! {

/// `std::str::Utf8Error`, which says where bytes stop being UTF-8. It is
/// carried to the caller as it is.
#[verifier::external_type_specification]
#[verifier::external_body]
pub struct ExUtf8Error(std::str::Utf8Error);

/// The value of a hexadecimal digit, in either case.
pub open spec fn hex_value(byte: u8) -> Option<int> {
    if 0x30 <= byte <= 0x39 {
        Some(byte - 0x30)
    } else if 0x41 <= byte <= 0x46 {
        Some(byte - 0x41 + 10)
    } else if 0x61 <= byte <= 0x66 {
        Some(byte - 0x61 + 10)
    } else {
        None
    }
}

/// A `%` and two hexadecimal digits open the bytes.
pub open spec fn opens_with_escape(bytes: Seq<u8>) -> bool {
    &&& bytes.len() >= 3
    &&& bytes[0] == 0x25
    &&& hex_value(bytes[1]) is Some
    &&& hex_value(bytes[2]) is Some
}

/// The bytes with every escape replaced by the byte it stands for. A `%`
/// that no two hexadecimal digits follow stays as it is.
pub open spec fn percent_decoded(bytes: Seq<u8>) -> Seq<u8>
    decreases bytes.len(),
{
    if bytes.len() == 0 {
        Seq::empty()
    } else if opens_with_escape(bytes) {
        seq![(hex_value(bytes[1]).unwrap() * 16 + hex_value(bytes[2]).unwrap()) as u8]
            + percent_decoded(bytes.skip(3))
    } else {
        seq![bytes[0]] + percent_decoded(bytes.skip(1))
    }
}

/// Calls `percent_encoding::percent_decode` and then `decode_utf8` on what
/// it returns. The contract claims what their documentation says: every `%`
/// followed by two hexadecimal digits is decoded, and the decoded bytes come
/// back as text exactly when they are well-formed UTF-8.
#[verifier::external_body]
pub(crate) fn percent_decode_utf8(input: &[u8]) -> (decoded: Result<String, std::str::Utf8Error>)
    ensures
        decoded is Ok <==> valid_utf8(percent_decoded(input@)),
        decoded matches Ok(text) ==> text@ == decode_utf8(percent_decoded(input@)),
{
    percent_encoding::percent_decode(input).decode_utf8().map(|text| text.into_owned())
}

} // verus!
