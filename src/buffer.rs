//! The byte buffer that a stream fills and a decoder drains: `bytes::BytesMut`,
//! seen by proofs through the sequence of bytes it holds.

use vstd::prelude::*;

verus! {

#[verifier::external_type_specification]
#[verifier::external_body]
pub struct ExBytesMut(bytes::BytesMut);

/// The bytes that a buffer holds, in order, from its head to its tail.
pub uninterp spec fn buf_bytes(b: bytes::BytesMut) -> Seq<u8>;

/// Relies on `BytesMut::len`: the number of bytes held.
#[verifier::external_body]
pub(crate) fn buffered_len(b: &bytes::BytesMut) -> (r: usize)
    ensures
        r == buf_bytes(*b).len(),
{
    b.len()
}

/// Relies on indexing a `BytesMut` as a slice (`Deref<Target = [u8]>`) and on
/// `<[u8]>::to_vec`: a copy of the first `n` bytes, the buffer untouched.
#[verifier::external_body]
pub(crate) fn buffered_head(b: &bytes::BytesMut, n: usize) -> (r: Vec<u8>)
    requires
        n <= buf_bytes(*b).len(),
    ensures
        r@ == buf_bytes(*b).subrange(0, n as int),
{
    b[..n].to_vec()
}

/// Relies on `BytesMut::split_to`: the first `n` bytes leave the buffer and
/// are returned; it panics when `n` exceeds the length.
#[verifier::external_body]
pub(crate) fn take_front(b: &mut bytes::BytesMut, n: usize) -> (r: bytes::BytesMut)
    requires
        n <= buf_bytes(*old(b)).len(),
    ensures
        buf_bytes(r) == buf_bytes(*old(b)).subrange(0, n as int),
        buf_bytes(*final(b)) == buf_bytes(*old(b)).subrange(n as int, buf_bytes(*old(b)).len() as int),
{
    b.split_to(n)
}

/// Relies on `<[u8]>::to_vec` through `BytesMut`'s `Deref`: the held bytes as a `Vec`.
#[verifier::external_body]
pub(crate) fn buffer_to_vec(b: &bytes::BytesMut) -> (r: Vec<u8>)
    ensures
        r@ == buf_bytes(*b),
{
    b.to_vec()
}

/// Relies on `BytesMut::extend_from_slice`: the bytes of `s` are appended at the tail.
#[verifier::external_body]
pub(crate) fn append_bytes(b: &mut bytes::BytesMut, s: &[u8])
    ensures
        buf_bytes(*final(b)) == buf_bytes(*old(b)) + s@,
{
    b.extend_from_slice(s)
}

} // verus!
