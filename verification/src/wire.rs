//! Byte buffers of the `bytes` crate, as the encoders of this library use
//! them. Each item below is trusted: its contract restates what the
//! `bytes` source shows of the call it makes.

use bytes::Buf;
use bytes::BufMut;
use bytes::Bytes;
use bytes::BytesMut;
use vstd::bytes::spec_u32_to_le_bytes;
use vstd::prelude::*;

verus! {

#[verifier::external_type_specification]
#[verifier::external_body]
pub struct ExBytesMut(BytesMut);

#[verifier::external_type_specification]
#[verifier::external_body]
pub struct ExBytes(Bytes);

/// The bytes written so far into a growable `BytesMut` buffer.
pub uninterp spec fn bytes_mut_contents(b: BytesMut) -> Seq<u8>;

/// The bytes held by a frozen `Bytes` buffer.
pub uninterp spec fn bytes_contents(b: Bytes) -> Seq<u8>;

/// `BytesMut::with_capacity`: a new buffer that holds no bytes yet (the
/// capacity is only a size hint and is not part of the contents).
#[verifier::external_body]
pub(crate) fn new_buffer(capacity: usize) -> (b: BytesMut)
    ensures
        bytes_mut_contents(b) == Seq::<u8>::empty(),
{
    BytesMut::with_capacity(capacity)
}

/// `BufMut::put_u8` on a `BytesMut`: appends one byte. The buffer grows as
/// needed; it only panics past `isize::MAX` bytes, which the precondition
/// rules out.
#[verifier::external_body]
pub(crate) fn put_u8(b: &mut BytesMut, n: u8)
    requires
        bytes_mut_contents(*old(b)).len() + 1 <= isize::MAX,
    ensures
        bytes_mut_contents(*final(b)) == bytes_mut_contents(*old(b)).push(n),
{
    b.put_u8(n)
}

/// `BufMut::put_u32_le` on a `BytesMut`: appends the four little-endian
/// bytes of `n` (`put_slice(&n.to_le_bytes())` in the source).
#[verifier::external_body]
pub(crate) fn put_u32_le(b: &mut BytesMut, n: u32)
    requires
        bytes_mut_contents(*old(b)).len() + 4 <= isize::MAX,
    ensures
        bytes_mut_contents(*final(b)) == bytes_mut_contents(*old(b)) + spec_u32_to_le_bytes(n),
{
    b.put_u32_le(n)
}

/// `BytesMut::extend_from_slice`: appends a copy of `s`.
#[verifier::external_body]
pub(crate) fn extend_from_slice(b: &mut BytesMut, s: &[u8])
    requires
        bytes_mut_contents(*old(b)).len() + s@.len() <= isize::MAX,
    ensures
        bytes_mut_contents(*final(b)) == bytes_mut_contents(*old(b)) + s@,
{
    b.extend_from_slice(s)
}

/// `BytesMut::freeze`: turns the buffer into an immutable `Bytes` holding
/// the same bytes.
#[verifier::external_body]
pub(crate) fn freeze(b: BytesMut) -> (r: Bytes)
    ensures
        bytes_contents(r) == bytes_mut_contents(b),
{
    b.freeze()
}

/// `Buf::get_u8` on a byte slice: returns the first byte and the slice
/// advanced past it. It panics on an empty slice, which the precondition
/// rules out.
#[verifier::external_body]
pub(crate) fn get_u8(cursor: &[u8]) -> (r: (u8, &[u8]))
    requires
        cursor@.len() >= 1,
    ensures
        r.0 == cursor@[0],
        r.1@ == cursor@.subrange(1, cursor@.len() as int),
{
    let mut rest = cursor;
    let first = rest.get_u8();
    (first, rest)
}

} // verus!
