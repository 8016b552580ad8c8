//! The read buffer of a connection: `bytes::BytesMut`, seen as the
//! sequence of bytes that it holds.
use vstd::prelude::*;

use bytes::BytesMut;

verus! {

#[verifier::external_type_specification]
#[verifier::external_body]
pub struct ExBytesMut(BytesMut);

/// The bytes that a `BytesMut` holds, in order.
pub uninterp spec fn buffer_bytes(buf: BytesMut) -> Seq<u8>;

/// `<BytesMut as Deref>::deref`: the slice of the bytes that the buffer holds.
#[verifier::external_body]
pub(crate) fn buffer_slice(buf: &BytesMut) -> (res: &[u8])
    ensures
        res@ == buffer_bytes(*buf),
{
    std::ops::Deref::deref(buf)
}

/// `<BytesMut as Buf>::advance`: drops the first `n` bytes of the buffer.
/// It panics where `n` exceeds the length, which `requires` rules out.
#[verifier::external_body]
pub(crate) fn buffer_advance(buf: &mut BytesMut, n: usize)
    requires
        n <= buffer_bytes(*old(buf)).len(),
    ensures
        buffer_bytes(*final(buf)) == buffer_bytes(*old(buf)).skip(n as int),
{
    bytes::Buf::advance(buf, n)
}

} // verus!
