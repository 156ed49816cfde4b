//! Trusted declarations for the two byte codecs the pipeline calls out
//! for: base64 decoding of image payloads, and fresh random UUIDs for
//! relationship ids and hyperlink revision ids.

use vstd::prelude::*;

verus! {

/// A lowercase hexadecimal digit.
pub open spec fn is_hex_lower(b: u8) -> bool {
    (48 <= b <= 57) || (97 <= b <= 102)
}

/// The hyphenated lowercase form of a UUID: 36 bytes, hyphens exactly at
/// positions 8, 13, 18 and 23, lowercase hex digits elsewhere.
pub open spec fn is_uuid_ascii(s: Seq<u8>) -> bool {
    &&& s.len() == 36
    &&& forall|i: int|
        0 <= i < 36 ==> if i == 8 || i == 13 || i == 18 || i == 23 {
            s[i] == 45
        } else {
            is_hex_lower(#[trigger] s[i])
        }
}

/// Relies on uuid::Uuid::new_v4 and Uuid::to_string: a fresh random UUID,
/// printed in the hyphenated lowercase-hexadecimal format. Nothing is
/// assumed about which UUID comes back, only its printed shape.
#[verifier::external_body]
pub fn fresh_uuid_ascii() -> (r: Vec<u8>)
    ensures
        is_uuid_ascii(r@),
{
    uuid::Uuid::new_v4().to_string().into_bytes()
}

/// What base64 decoding of a byte string yields: the decoded bytes, or
/// nothing when the input is not valid standard base64.
pub uninterp spec fn spec_base64_decode(s: Seq<u8>) -> Option<Seq<u8>>;

/// Relies on base64's standard-alphabet engine: decoding is a function of
/// the input alone; it fails exactly on inputs that are not valid base64.
#[verifier::external_body]
pub fn base64_decode(data: &[u8]) -> (r: Option<Vec<u8>>)
    ensures
        r is Some <==> spec_base64_decode(data@) is Some,
        r matches Some(v) ==> spec_base64_decode(data@) == Some(v@),
{
    match <base64::engine::GeneralPurpose as base64::Engine>::decode(
        &base64::engine::general_purpose::STANDARD,
        data,
    ) {
        Ok(v) => Some(v),
        Err(_) => None,
    }
}

} // verus!
