//! Byte buffers of the `bytes` crate, as the verified code sees them.
//!
//! A `Bytes` or `BytesMut` value is opaque to the verifier. What it holds is
//! named by `bytes_contents` and `buf_contents`; the functions below call the
//! crate and state, unproved, what each call does to those contents.
use vstd::prelude::*;
use bytes::{BufMut, Bytes, BytesMut};

verus! {

/// `bytes::Bytes`: an immutable, cheaply cloneable run of bytes.
#[verifier::external_type_specification]
#[verifier::external_body]
pub struct ExBytes(bytes::Bytes);

/// `bytes::BytesMut`: a growable run of bytes.
#[verifier::external_type_specification]
#[verifier::external_body]
pub struct ExBytesMut(bytes::BytesMut);

/// The bytes that a `Bytes` value holds, first to last.
pub uninterp spec fn bytes_contents(b: Bytes) -> Seq<u8>;

/// The bytes that a `BytesMut` value holds, first to last.
pub uninterp spec fn buf_contents(b: BytesMut) -> Seq<u8>;

/// Big-endian bytes of a 16-bit number.
pub open spec fn be16(v: u16) -> Seq<u8> {
    seq![(v >> 8) as u8, (v & 0xff) as u8]
}

/// Big-endian bytes of a 32-bit number.
pub open spec fn be32(v: u32) -> Seq<u8> {
    seq![(v >> 24) as u8, ((v >> 16) & 0xff) as u8, ((v >> 8) & 0xff) as u8, (v & 0xff) as u8]
}

/// `Bytes::copy_from_slice`: the new value holds a copy of the slice.
#[verifier::external_body]
pub(crate) fn bytes_from_slice(data: &[u8]) -> (b: Bytes)
    ensures
        bytes_contents(b) == data@,
{
    Bytes::copy_from_slice(data)
}

/// `Deref` of `Bytes`: the slice borrowed from the value is what it holds.
#[verifier::external_body]
pub(crate) fn bytes_as_slice(b: &Bytes) -> (s: &[u8])
    ensures
        s@ == bytes_contents(*b),
{
    b
}

/// `BytesMut::with_capacity`: an empty buffer. The capacity is a hint only;
/// the call panics beyond `isize::MAX`, which is left out.
#[verifier::external_body]
pub(crate) fn buf_with_capacity(capacity: usize) -> (b: BytesMut)
    requires
        capacity <= isize::MAX,
    ensures
        buf_contents(b) == Seq::<u8>::empty(),
{
    BytesMut::with_capacity(capacity)
}

/// `BufMut::put_u8` on `BytesMut`: appends the byte.
#[verifier::external_body]
pub(crate) fn buf_put_u8(buf: &mut BytesMut, v: u8)
    requires
        buf_contents(*old(buf)).len() + 1 <= isize::MAX,
    ensures
        buf_contents(*final(buf)) == buf_contents(*old(buf)).push(v),
{
    buf.put_u8(v)
}

/// `BufMut::put_u16` on `BytesMut`: appends the number's two bytes, high
/// byte first.
#[verifier::external_body]
pub(crate) fn buf_put_u16(buf: &mut BytesMut, v: u16)
    requires
        buf_contents(*old(buf)).len() + 2 <= isize::MAX,
    ensures
        buf_contents(*final(buf)) == buf_contents(*old(buf)) + be16(v),
{
    buf.put_u16(v)
}

/// `BufMut::put_u32` on `BytesMut`: appends the number's four bytes, high
/// byte first.
#[verifier::external_body]
pub(crate) fn buf_put_u32(buf: &mut BytesMut, v: u32)
    requires
        buf_contents(*old(buf)).len() + 4 <= isize::MAX,
    ensures
        buf_contents(*final(buf)) == buf_contents(*old(buf)) + be32(v),
{
    buf.put_u32(v)
}

/// `BufMut::put_slice` on `BytesMut`: appends the slice. The buffer grows as
/// needed; growth beyond `isize::MAX` panics and is left out.
#[verifier::external_body]
pub(crate) fn buf_put_slice(buf: &mut BytesMut, src: &[u8])
    requires
        buf_contents(*old(buf)).len() + src@.len() <= isize::MAX,
    ensures
        buf_contents(*final(buf)) == buf_contents(*old(buf)) + src@,
{
    buf.put_slice(src)
}

/// `BytesMut::freeze`: the immutable value holds what the buffer held.
#[verifier::external_body]
pub(crate) fn buf_freeze(buf: BytesMut) -> (b: Bytes)
    ensures
        bytes_contents(b) == buf_contents(buf),
{
    buf.freeze()
}

} // verus!
