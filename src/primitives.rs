//! The calls this library makes into outside crates, each behind a contract.
use vstd::prelude::*;

use hmac::{Hmac, Mac};
use sha2::Sha256;

verus! {

/// The HMAC-SHA256 tag of `message` under `key`.
pub uninterp spec fn hmac_sha256(key: Seq<u8>, message: Seq<u8>) -> Seq<u8>;

/// The instant an RFC 3339 timestamp names, as seconds since the Unix epoch
/// and nanoseconds within the second; `None` when the text is not RFC 3339.
pub uninterp spec fn rfc3339_instant(text: Seq<char>) -> Option<(i64, u32)>;

/// The value of one hexadecimal digit (either case), or -1.
pub open spec fn hex_value(b: u8) -> int {
    if 48 <= b <= 57 {
        b - 48
    } else if 97 <= b <= 102 {
        b - 87
    } else if 65 <= b <= 70 {
        b - 55
    } else {
        -1
    }
}

/// An even number of hexadecimal digits.
pub open spec fn is_hex(b: Seq<u8>) -> bool {
    b.len() % 2 == 0 && forall|i: int| 0 <= i < b.len() ==> hex_value(#[trigger] b[i]) >= 0
}

/// The bytes that a string of hexadecimal digit pairs spells.
pub open spec fn hex_bytes(b: Seq<u8>) -> Seq<u8> {
    Seq::new(b.len() / 2, |i: int| (hex_value(b[2 * i]) * 16 + hex_value(b[2 * i + 1])) as u8)
}

/// Relies on hmac's `Hmac<Sha256>` (`new_from_slice`, `update`, `verify_slice`):
/// `verify_slice` accepts `tag` exactly when it is the whole HMAC-SHA256 of
/// `message` under `key`; a key of any length is accepted.
#[verifier::external_body]
pub(crate) fn hmac_sha256_matches(key: &[u8], message: &[u8], tag: &[u8]) -> (r: bool)
    ensures
        r == (tag@ == hmac_sha256(key@, message@)),
{
    match <Hmac<Sha256> as Mac>::new_from_slice(key) {
        Ok(mut mac) => {
            mac.update(message);
            mac.verify_slice(tag).is_ok()
        },
        Err(_) => false,
    }
}

/// Relies on `hex::decode`: it fails on an odd length or a byte that is not a
/// hexadecimal digit, and otherwise turns each digit pair into one byte.
#[verifier::external_body]
pub(crate) fn decode_hex(digits: &[u8]) -> (r: Option<Vec<u8>>)
    ensures
        r is Some <==> is_hex(digits@),
        r matches Some(v) ==> v@ == hex_bytes(digits@),
{
    match hex::decode(digits) {
        Ok(v) => Some(v),
        Err(_) => None,
    }
}

/// Relies on chrono's `DateTime::parse_from_rfc3339`, and on `timestamp` and
/// `timestamp_subsec_nanos` of the instant it gives.
#[verifier::external_body]
pub(crate) fn parse_rfc3339(text: &str) -> (r: Option<(i64, u32)>)
    ensures
        r == rfc3339_instant(text@),
{
    match chrono::DateTime::parse_from_rfc3339(text) {
        Ok(t) => Some((t.timestamp(), t.timestamp_subsec_nanos())),
        Err(_) => None,
    }
}

/// Relies on chrono's `Utc::now`: the current time as seconds since the Unix
/// epoch and nanoseconds within the second. Nothing is promised of its value.
#[verifier::external_body]
pub(crate) fn utc_now() -> (r: (i64, u32)) {
    let t = chrono::Utc::now();
    (t.timestamp(), t.timestamp_subsec_nanos())
}

} // verus!
