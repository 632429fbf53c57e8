//! Base64, as the AUTH dialogue uses it: challenges go out encoded,
//! client responses come back encoded. The coding itself is done by the
//! base64 crate; these wrappers give it a name the contracts can use.

use vstd::prelude::*;

use base64::Engine;

verus! {

/// The standard (RFC 4648, padded) base64 encoding of a byte sequence.
pub uninterp spec fn b64_of(b: Seq<u8>) -> Seq<char>;

/// The standard base64 decoding of a string: the bytes it denotes, or
/// nothing when it is not well-formed base64.
pub uninterp spec fn b64_parse(s: Seq<char>) -> Option<Seq<u8>>;

/// Relies on base64's STANDARD engine `encode`: the encoding depends on
/// the input bytes alone, and the empty input encodes to the empty
/// string. The length bound keeps clear of the engine's overflow panic
/// on astronomically long inputs.
#[verifier::external_body]
pub fn b64_encode(b: &Vec<u8>) -> (r: String)
    requires
        b@.len() <= 0x1000_0000,
    ensures
        r@ == b64_of(b@),
        b@.len() == 0 ==> r@.len() == 0,
{
    base64::engine::general_purpose::STANDARD.encode(b)
}

/// Relies on base64's STANDARD engine `decode`: it returns the denoted
/// bytes exactly when the input is well-formed base64.
#[verifier::external_body]
pub fn b64_decode(s: &str) -> (r: Option<Vec<u8>>)
    ensures
        r is Some <==> b64_parse(s@) is Some,
        r matches Some(v) ==> b64_parse(s@) == Some(v@),
{
    match base64::engine::general_purpose::STANDARD.decode(s) {
        Ok(v) => Some(v),
        Err(_) => None,
    }
}

} // verus!
