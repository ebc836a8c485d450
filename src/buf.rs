//! Byte buffers of the `bytes` crate, as this library sees them.
//!
//! `Bytes` is an immutable, reference-counted byte sequence and `BytesMut` a
//! growable one. Verus sees neither inside: what each holds is named below, and
//! every operation the library uses is a small wrapper whose contract states its
//! effect on that content.
use bytes::{Bytes, BytesMut};
use bytes::Buf;
use vstd::prelude::*;

verus! {

#[verifier::external_type_specification]
#[verifier::external_body]
pub struct ExBytes(Bytes);

#[verifier::external_type_specification]
#[verifier::external_body]
pub struct ExBytesMut(BytesMut);

/// The bytes held by a `Bytes`.
pub uninterp spec fn bytes_view(b: Bytes) -> Seq<u8>;

/// The bytes held by a `BytesMut`.
pub uninterp spec fn bytes_mut_view(b: BytesMut) -> Seq<u8>;

/// Relies on `Bytes::new`: an empty buffer.
#[verifier::external_body]
pub(crate) fn bytes_empty() -> (r: Bytes)
    ensures
        bytes_view(r) == Seq::<u8>::empty(),
{
    Bytes::new()
}

/// Relies on `Bytes::copy_from_slice`: a buffer holding a copy of `data`.
#[verifier::external_body]
pub(crate) fn bytes_copy(data: &[u8]) -> (r: Bytes)
    ensures
        bytes_view(r) == data@,
{
    Bytes::copy_from_slice(data)
}

/// Relies on `Bytes::from_static`: a buffer over `data` itself, no copy.
#[verifier::external_body]
pub(crate) fn bytes_static(data: &'static [u8]) -> (r: Bytes)
    ensures
        bytes_view(r) == data@,
{
    Bytes::from_static(data)
}

/// Relies on `From<Vec<u8>> for Bytes`: the buffer takes over the vector's bytes.
#[verifier::external_body]
pub(crate) fn bytes_from_vec(v: Vec<u8>) -> (r: Bytes)
    ensures
        bytes_view(r) == v@,
{
    Bytes::from(v)
}

/// Relies on `Clone for Bytes`: a second handle to the same bytes.
#[verifier::external_body]
pub(crate) fn bytes_clone(b: &Bytes) -> (r: Bytes)
    ensures
        bytes_view(r) == bytes_view(*b),
{
    b.clone()
}

/// Relies on `AsRef<[u8]> for Bytes`: the bytes as a slice.
#[verifier::external_body]
pub(crate) fn bytes_slice(b: &Bytes) -> (r: &[u8])
    ensures
        r@ == bytes_view(*b),
{
    b.as_ref()
}

/// Relies on `BytesMut::new`: an empty buffer.
#[verifier::external_body]
pub(crate) fn bytes_mut_empty() -> (r: BytesMut)
    ensures
        bytes_mut_view(r) == Seq::<u8>::empty(),
{
    BytesMut::new()
}

/// Relies on `BytesMut::extend_from_slice`: `data` is appended.
#[verifier::external_body]
pub(crate) fn bytes_mut_extend(b: &mut BytesMut, data: &[u8])
    ensures
        bytes_mut_view(*final(b)) == bytes_mut_view(*old(b)) + data@,
{
    b.extend_from_slice(data)
}

/// Relies on `Buf::advance for BytesMut`: the first `n` bytes are dropped.
/// It panics past the end, which `requires` rules out.
#[verifier::external_body]
pub(crate) fn bytes_mut_advance(b: &mut BytesMut, n: usize)
    requires
        n <= bytes_mut_view(*old(b)).len(),
    ensures
        bytes_mut_view(*final(b)) == bytes_mut_view(*old(b)).subrange(
            n as int,
            bytes_mut_view(*old(b)).len() as int,
        ),
{
    b.advance(n)
}

/// Relies on `AsRef<[u8]> for BytesMut`: the bytes as a slice.
#[verifier::external_body]
pub(crate) fn bytes_mut_slice(b: &BytesMut) -> (r: &[u8])
    ensures
        r@ == bytes_mut_view(*b),
{
    b.as_ref()
}

} // verus!
