//! Request identifiers: 16-byte UUIDs, held as `u128`.
use vstd::prelude::*;

verus! {

/// The number a big-endian byte sequence denotes.
pub open spec fn be_value(b: Seq<u8>) -> nat
    decreases b.len(),
{
    if b.len() == 0 {
        0
    } else {
        be_value(b.drop_last()) * 256 + b.last() as nat
    }
}

/// A fresh random request id, as its 16 raw bytes.
///
/// Relies on `uuid::Uuid::new_v4` and `Uuid::as_bytes`: a UUID is 16 bytes.
#[verifier::external_body]
pub fn new_id() -> (r: Vec<u8>)
    ensures
        r@.len() == 16,
{
    uuid::Uuid::new_v4().as_bytes().to_vec()
}

/// Reads a request id from raw bytes.
///
/// Relies on `uuid::Uuid::from_slice`, which accepts exactly 16 bytes, and on
/// `Uuid::as_u128`, which reads those bytes as a big-endian number.
#[verifier::external_body]
pub fn parse_request_id(b: &[u8]) -> (r: Option<u128>)
    ensures
        r is Some <==> b@.len() == 16,
        r matches Some(v) ==> v as nat == be_value(b@),
{
    uuid::Uuid::from_slice(b).ok().map(|u| u.as_u128())
}

} // verus!
