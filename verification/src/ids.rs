//! Identifiers of connections and entities. The library carries a UUID as
//! the `u128` that `Uuid::as_u128` gives: its sixteen bytes read
//! big-endian.

use uuid::Uuid;
use vstd::prelude::*;

verus! {

/// The unsigned value of a byte string read big-endian.
pub open spec fn be_value(s: Seq<u8>) -> nat
    decreases s.len(),
{
    if s.len() == 0 {
        0
    } else {
        be_value(s.drop_last()) * 256 + s.last() as nat
    }
}

/// `Uuid::nil`: the UUID whose sixteen bytes are all zero.
#[verifier::external_body]
pub(crate) fn nil_uuid() -> (id: u128)
    ensures
        id == 0,
{
    Uuid::nil().as_u128()
}

/// `Uuid::from_slice`: accepts exactly sixteen bytes, which become the
/// UUID's bytes in order.
#[verifier::external_body]
pub(crate) fn uuid_from_slice(b: &[u8]) -> (id: Option<u128>)
    ensures
        id is Some <==> b@.len() == 16,
        id matches Some(v) ==> v as nat == be_value(b@),
{
    match Uuid::from_slice(b) {
        Ok(u) => Some(u.as_u128()),
        Err(_) => None,
    }
}

} // verus!
