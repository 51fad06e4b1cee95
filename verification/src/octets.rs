//! Byte buffers that are shared without copying: `bytes::Bytes`.
use bytes::Bytes;
use vstd::prelude::*;

verus! {

/// `bytes::Bytes`, a buffer of bytes.
#[verifier::external_type_specification]
#[verifier::external_body]
pub struct ExBytes(bytes::Bytes);

/// The bytes that a buffer holds.
pub uninterp spec fn octets(b: Bytes) -> Seq<u8>;

/// `Bytes::as_ref`: the bytes of a buffer.
#[verifier::external_body]
pub(crate) fn slice_of(b: &Bytes) -> (r: &[u8])
    ensures
        r@ == octets(*b),
{
    b.as_ref()
}

/// `Bytes::from` on a vector: a buffer with the vector's bytes.
#[verifier::external_body]
pub(crate) fn buffer_of(v: Vec<u8>) -> (r: Bytes)
    ensures
        octets(r) == v@,
{
    Bytes::from(v)
}

/// `Bytes::clone`: a buffer with the same bytes.
#[verifier::external_body]
pub(crate) fn buffer_again(b: &Bytes) -> (r: Bytes)
    ensures
        octets(r) == octets(*b),
{
    b.clone()
}

/// `Bytes::copy_from_slice`: a buffer with a copy of the bytes.
#[verifier::external_body]
pub(crate) fn buffer_copy(v: &[u8]) -> (r: Bytes)
    ensures
        octets(r) == v@,
{
    Bytes::copy_from_slice(v)
}

} // verus!
