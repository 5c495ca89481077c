//! Buffers of bytes that can be shared and split without copying.
use bytes::{Bytes, BytesMut};
use vstd::prelude::*;

verus! {

/// `bytes::Bytes`.
#[verifier::external_type_specification]
#[verifier::external_body]
pub struct ExBytes(bytes::Bytes);

/// `bytes::BytesMut`.
#[verifier::external_type_specification]
#[verifier::external_body]
pub struct ExBytesMut(bytes::BytesMut);

/// The bytes that a shared buffer holds.
pub uninterp spec fn shared_bytes(b: Bytes) -> Seq<u8>;

/// The bytes that a buffer holds.
pub uninterp spec fn owned_bytes(b: BytesMut) -> Seq<u8>;

/// `Bytes::from` for a vector: a shared buffer with the vector's bytes.
#[verifier::external_body]
pub(crate) fn share(v: Vec<u8>) -> (r: Bytes)
    ensures
        shared_bytes(r) == v@,
{
    Bytes::from(v)
}

/// `Bytes::clone`: another handle to the same bytes.
#[verifier::external_body]
pub(crate) fn another(b: &Bytes) -> (r: Bytes)
    ensures
        shared_bytes(r) == shared_bytes(*b),
{
    b.clone()
}

/// `Bytes::as_ref`: the bytes that a shared buffer holds.
#[verifier::external_body]
pub(crate) fn shared_slice(b: &Bytes) -> (r: &[u8])
    ensures
        r@ == shared_bytes(*b),
{
    b.as_ref()
}

/// `BytesMut::as_ref`: the bytes that a buffer holds.
#[verifier::external_body]
pub(crate) fn owned_slice(b: &BytesMut) -> (r: &[u8])
    ensures
        r@ == owned_bytes(*b),
{
    b.as_ref()
}

/// `BytesMut::len`: how many bytes a buffer holds.
#[verifier::external_body]
pub(crate) fn buffer_len(b: &BytesMut) -> (r: usize)
    ensures
        r == owned_bytes(*b).len(),
{
    b.len()
}

/// `BytesMut::split_to`: takes the first `at` bytes off a buffer; there have to be
/// so many.
#[verifier::external_body]
pub(crate) fn split_to(b: &mut BytesMut, at: usize) -> (r: BytesMut)
    requires
        at <= owned_bytes(*old(b)).len(),
    ensures
        owned_bytes(r) == owned_bytes(*old(b)).take(at as int),
        owned_bytes(*final(b)) == owned_bytes(*old(b)).skip(at as int),
{
    b.split_to(at)
}

/// `BytesMut::freeze`: the buffer's bytes as a shared buffer.
#[verifier::external_body]
pub(crate) fn freeze(b: BytesMut) -> (r: Bytes)
    ensures
        shared_bytes(r) == owned_bytes(b),
{
    b.freeze()
}

} // verus!
