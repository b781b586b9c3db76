//! What this library assumes of the `bytes` crate's buffers.
//!
//! `BytesMut` and `Bytes` are opaque to the verifier; their contents are named
//! by `bytes_mut_seq` and `bytes_seq`, and each operation that the library
//! performs on them states its effect over those names.
use bytes::{BufMut, Bytes, BytesMut};
use vstd::prelude::*;

verus! {

#[verifier::external_type_specification]
#[verifier::external_body]
pub struct ExBytesMut(bytes::BytesMut);

#[verifier::external_type_specification]
#[verifier::external_body]
pub struct ExBytes(bytes::Bytes);

/// The bytes that a growable buffer holds, first to last.
pub uninterp spec fn bytes_mut_seq(b: BytesMut) -> Seq<u8>;

/// The bytes that a frozen buffer holds, first to last.
pub uninterp spec fn bytes_seq(b: Bytes) -> Seq<u8>;

/// Relies on `BytesMut::with_capacity`: the new buffer holds no data.
pub assume_specification[ bytes::BytesMut::with_capacity ](capacity: usize) -> (r: BytesMut)
    ensures
        bytes_mut_seq(r) == Seq::<u8>::empty(),
;

/// Relies on `BytesMut::len`: the number of bytes held.
pub assume_specification[ bytes::BytesMut::len ](b: &BytesMut) -> (r: usize)
    ensures
        r == bytes_mut_seq(*b).len(),
;

/// Relies on `BytesMut::clear`: all data is removed.
pub assume_specification[ bytes::BytesMut::clear ](b: &mut BytesMut)
    ensures
        bytes_mut_seq(*final(b)) == Seq::<u8>::empty(),
;

/// Relies on `BytesMut::split_to`: the first `at` bytes leave the buffer and
/// are returned; it panics when `at` exceeds the length.
pub assume_specification[ bytes::BytesMut::split_to ](b: &mut BytesMut, at: usize) -> (r: BytesMut)
    requires
        at <= bytes_mut_seq(*old(b)).len(),
    ensures
        bytes_mut_seq(r) == bytes_mut_seq(*old(b)).take(at as int),
        bytes_mut_seq(*final(b)) == bytes_mut_seq(*old(b)).skip(at as int),
;

/// Relies on `BytesMut::extend_from_slice`: the slice is appended; it panics
/// when the new length overflows the capacity that can be allocated.
pub assume_specification[ bytes::BytesMut::extend_from_slice ](b: &mut BytesMut, extend: &[u8])
    requires
        bytes_mut_seq(*old(b)).len() + extend@.len() <= isize::MAX,
    ensures
        bytes_mut_seq(*final(b)) == bytes_mut_seq(*old(b)) + extend@,
;

/// Relies on `BytesMut::freeze`: the contents are kept as they are.
pub assume_specification[ bytes::BytesMut::freeze ](b: BytesMut) -> (r: Bytes)
    ensures
        bytes_seq(r) == bytes_mut_seq(b),
;

/// Relies on `BufMut::put_u8` for `BytesMut`: one byte is appended.
#[verifier::external_body]
pub(crate) fn put_u8(b: &mut BytesMut, v: u8)
    requires
        bytes_mut_seq(*old(b)).len() + 1 <= isize::MAX,
    ensures
        bytes_mut_seq(*final(b)) == bytes_mut_seq(*old(b)).push(v),
{
    b.put_u8(v)
}

/// Relies on `BufMut::put_u16` for `BytesMut`: two bytes are appended, most
/// significant first.
#[verifier::external_body]
pub(crate) fn put_u16(b: &mut BytesMut, v: u16)
    requires
        bytes_mut_seq(*old(b)).len() + 2 <= isize::MAX,
    ensures
        bytes_mut_seq(*final(b)) == bytes_mut_seq(*old(b)) + seq![(v / 256) as u8, (v % 256) as u8],
{
    b.put_u16(v)
}

/// Relies on indexing through `BytesMut`'s `Deref` to `[u8]`: the byte at `i`.
#[verifier::external_body]
pub(crate) fn byte_at(b: &BytesMut, i: usize) -> (r: u8)
    requires
        i < bytes_mut_seq(*b).len(),
    ensures
        r == bytes_mut_seq(*b)[i as int],
{
    b[i]
}

/// Relies on `From<BytesMut> for Vec<u8>`: the contents are kept as they are.
#[verifier::external_body]
pub(crate) fn into_vec(b: BytesMut) -> (r: Vec<u8>)
    ensures
        r@ == bytes_mut_seq(b),
{
    Vec::from(b)
}

} // verus!
