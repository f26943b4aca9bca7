//! Trusted surface over `bytes::BytesMut`, the byte buffer that carries
//! raw transport data into and out of the codec.
//!
//! Verus sees the buffer only through [`buf_bytes`], the sequence of bytes
//! it currently holds, and through the thin wrappers below, each of which
//! states what one documented `BytesMut` operation does to that sequence.

use vstd::prelude::*;
use bytes::BytesMut;

verus! {

#[verifier::external_type_specification]
#[verifier::external_body]
pub struct ExBytesMut(BytesMut);

/// The bytes a `BytesMut` currently holds, front to back.
pub uninterp spec fn buf_bytes(b: BytesMut) -> Seq<u8>;

/// Relies on `BytesMut::new`: a fresh buffer holds no bytes.
#[verifier::external_body]
pub(crate) fn buf_new() -> (r: BytesMut)
    ensures
        buf_bytes(r) == Seq::<u8>::empty(),
{
    BytesMut::new()
}

/// Relies on `<BytesMut as AsRef<[u8]>>::as_ref`: a view of exactly the
/// held bytes.
#[verifier::external_body]
pub(crate) fn buf_as_slice(b: &BytesMut) -> (r: &[u8])
    ensures
        r@ == buf_bytes(*b),
{
    b.as_ref()
}

/// Relies on `BytesMut::split_to`: afterwards `b` holds bytes `[at, len)`
/// and the returned buffer holds bytes `[0, at)`. The call panics when
/// `at > len`, which the precondition rules out.
#[verifier::external_body]
pub(crate) fn buf_split_to(b: &mut BytesMut, at: usize) -> (r: BytesMut)
    requires
        at <= buf_bytes(*old(b)).len(),
    ensures
        buf_bytes(r) == buf_bytes(*old(b)).take(at as int),
        buf_bytes(*final(b)) == buf_bytes(*old(b)).skip(at as int),
{
    b.split_to(at)
}

/// Relies on `BytesMut::extend_from_slice`: appends the given bytes,
/// growing the buffer as needed.
#[verifier::external_body]
pub(crate) fn buf_extend(b: &mut BytesMut, data: &[u8])
    ensures
        buf_bytes(*final(b)) == buf_bytes(*old(b)) + data@,
{
    b.extend_from_slice(data)
}

} // verus!
