//! The byte buffers of the `bytes` crate, and what is taken for granted of
//! them.

use bytes::{Buf, BufMut, Bytes, BytesMut};
use vstd::prelude::*;

verus! {

/// The shared byte string of the `bytes` crate.
#[verifier::external_type_specification]
#[verifier::external_body]
pub struct ExBytes(bytes::Bytes);

/// The growing byte buffer of the `bytes` crate.
#[verifier::external_type_specification]
#[verifier::external_body]
pub struct ExBytesMut(bytes::BytesMut);

/// The bytes that a byte string holds, from its cursor on.
pub uninterp spec fn held(b: Bytes) -> Seq<u8>;

/// The bytes that a buffer holds, from its cursor on.
pub uninterp spec fn buffered(b: BytesMut) -> Seq<u8>;

/// The four bytes of `v`, highest first.
pub open spec fn be32(v: u32) -> Seq<u8> {
    seq![
        (v / 0x100_0000) as u8,
        (v / 0x1_0000 % 0x100) as u8,
        (v / 0x100 % 0x100) as u8,
        (v % 0x100) as u8,
    ]
}

/// The integer whose bytes, highest first, are the first four of `b`.
pub open spec fn from_be32(b: Seq<u8>) -> u32 {
    (0x100_0000 * b[0] + 0x1_0000 * b[1] + 0x100 * b[2] + b[3]) as u32
}

/// An integer is its bytes.
pub proof fn lemma_be32(v: u32)
    ensures
        from_be32(be32(v)) == v,
{
    let q1 = v / 0x100;
    let q2 = q1 / 0x100;
    let q3 = q2 / 0x100;
    assert(v / 0x1_0000 == q2 && v / 0x100_0000 == q3);
}

/// Four bytes are the bytes of their integer.
pub proof fn lemma_from_be32(b: Seq<u8>)
    requires
        b.len() >= 4,
    ensures
        be32(from_be32(b)) == b.take(4),
{
    let v = from_be32(b);
    let q1 = v / 0x100;
    let q2 = q1 / 0x100;
    assert(q1 == 0x1_0000 * b[0] + 0x100 * b[1] + b[2]);
    assert(q2 == 0x100 * b[0] + b[1]);
    assert(v / 0x1_0000 == q2 && v / 0x100_0000 == q2 / 0x100);
    assert(be32(v) =~= b.take(4));
}

/// The bytes of an integer, wherever they stand, are read as the integer.
pub proof fn lemma_be32_at(data: Seq<u8>, at: int, v: u32)
    requires
        0 <= at,
        at + 4 <= data.len(),
        data.subrange(at, at + 4) == be32(v),
    ensures
        from_be32(data.skip(at)) == v,
{
    let part = data.subrange(at, at + 4);
    assert(data.skip(at)[0] == part[0]);
    assert(data.skip(at)[1] == part[1]);
    assert(data.skip(at)[2] == part[2]);
    assert(data.skip(at)[3] == part[3]);
    lemma_be32(v);
}

/// Calls `Bytes::len`: how many bytes there are.
#[verifier::external_body]
pub(crate) fn bytes_len(b: &Bytes) -> (n: usize)
    ensures
        n == held(*b).len(),
{
    b.len()
}

/// Calls `Buf::remaining` on `Bytes`: how many bytes there are to read.
#[verifier::external_body]
pub(crate) fn bytes_remaining(b: &Bytes) -> (n: usize)
    ensures
        n == held(*b).len(),
{
    b.remaining()
}

/// Calls `Deref::deref` of `Bytes`: the bytes as a slice.
#[verifier::external_body]
pub(crate) fn bytes_slice(b: &Bytes) -> (s: &[u8])
    ensures
        s@ == held(*b),
{
    &b[..]
}

/// Calls `Bytes::copy_from_slice`: a byte string with a copy of the bytes.
#[verifier::external_body]
pub(crate) fn bytes_copy(data: &[u8]) -> (b: Bytes)
    ensures
        held(b) == data@,
{
    Bytes::copy_from_slice(data)
}

/// Calls `Clone::clone` of `Bytes`: the same bytes again.
#[verifier::external_body]
pub(crate) fn bytes_clone(b: &Bytes) -> (r: Bytes)
    ensures
        held(r) == held(*b),
{
    b.clone()
}

/// Calls `Buf::get_u8` on `Bytes`, which takes the first byte off. It panics
/// where there is none.
#[verifier::external_body]
pub(crate) fn bytes_get_u8(b: &mut Bytes) -> (v: u8)
    requires
        held(*old(b)).len() >= 1,
    ensures
        v == held(*old(b))[0],
        held(*final(b)) == held(*old(b)).skip(1),
{
    b.get_u8()
}

/// Calls `Buf::get_u32` on `Bytes`, which takes a big-endian integer off. It
/// panics where there are fewer than four bytes.
#[verifier::external_body]
pub(crate) fn bytes_get_u32(b: &mut Bytes) -> (v: u32)
    requires
        held(*old(b)).len() >= 4,
    ensures
        v == from_be32(held(*old(b))),
        held(*final(b)) == held(*old(b)).skip(4),
{
    b.get_u32()
}

/// Calls `Buf::copy_to_bytes` on `Bytes`, which takes the first `len` bytes
/// off. It panics where there are fewer.
#[verifier::external_body]
pub(crate) fn bytes_split(b: &mut Bytes, len: usize) -> (front: Bytes)
    requires
        len <= held(*old(b)).len(),
    ensures
        held(front) == held(*old(b)).take(len as int),
        held(*final(b)) == held(*old(b)).skip(len as int),
{
    b.copy_to_bytes(len)
}

/// Calls `BytesMut::with_capacity`: an empty buffer. It panics where the
/// capacity exceeds `isize::MAX`.
#[verifier::external_body]
pub(crate) fn buffer_with_capacity(capacity: usize) -> (b: BytesMut)
    requires
        capacity <= isize::MAX,
    ensures
        buffered(b) == Seq::<u8>::empty(),
{
    BytesMut::with_capacity(capacity)
}

/// Calls `BytesMut::len`: how many bytes there are.
#[verifier::external_body]
pub(crate) fn buffer_len(b: &BytesMut) -> (n: usize)
    ensures
        n == buffered(*b).len(),
{
    b.len()
}

/// Calls `Deref::deref` of `BytesMut`: the bytes as a slice.
#[verifier::external_body]
pub(crate) fn buffer_slice(b: &BytesMut) -> (s: &[u8])
    ensures
        s@ == buffered(*b),
{
    &b[..]
}

/// Calls `BufMut::put_u8` on `BytesMut`, which appends a byte. A buffer holds
/// at most `isize::MAX` bytes.
#[verifier::external_body]
pub(crate) fn buffer_put_u8(b: &mut BytesMut, v: u8)
    requires
        buffered(*old(b)).len() + 1 <= isize::MAX,
    ensures
        buffered(*final(b)) == buffered(*old(b)).push(v),
{
    b.put_u8(v)
}

/// Calls `BufMut::put_u32` on `BytesMut`, which appends a big-endian integer.
/// A buffer holds at most `isize::MAX` bytes.
#[verifier::external_body]
pub(crate) fn buffer_put_u32(b: &mut BytesMut, v: u32)
    requires
        buffered(*old(b)).len() + 4 <= isize::MAX,
    ensures
        buffered(*final(b)) == buffered(*old(b)) + be32(v),
{
    b.put_u32(v)
}

/// Calls `BufMut::put_slice` on `BytesMut`, which appends bytes. A buffer
/// holds at most `isize::MAX` bytes.
#[verifier::external_body]
pub(crate) fn buffer_put_slice(b: &mut BytesMut, data: &[u8])
    requires
        buffered(*old(b)).len() + data@.len() <= isize::MAX,
    ensures
        buffered(*final(b)) == buffered(*old(b)) + data@,
{
    b.put_slice(data)
}

/// Calls `BytesMut::extend_from_slice`, which appends bytes. A buffer holds at
/// most `isize::MAX` bytes.
#[verifier::external_body]
pub(crate) fn buffer_extend(b: &mut BytesMut, data: &[u8])
    requires
        buffered(*old(b)).len() + data@.len() <= isize::MAX,
    ensures
        buffered(*final(b)) == buffered(*old(b)) + data@,
{
    b.extend_from_slice(data)
}

/// Calls `Buf::advance` on `BytesMut`, which drops the first `n` bytes. It
/// panics where there are fewer.
#[verifier::external_body]
pub(crate) fn buffer_advance(b: &mut BytesMut, n: usize)
    requires
        n <= buffered(*old(b)).len(),
    ensures
        buffered(*final(b)) == buffered(*old(b)).skip(n as int),
{
    b.advance(n)
}

/// Calls `BytesMut::freeze`: the same bytes as a byte string.
#[verifier::external_body]
pub(crate) fn buffer_freeze(b: BytesMut) -> (r: Bytes)
    ensures
        held(r) == buffered(b),
{
    b.freeze()
}

} // verus!
