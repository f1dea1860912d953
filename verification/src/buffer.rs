//! The byte buffers of the `bytes` crate, as far as the codec uses them.
use bytes::{BufMut, Bytes, BytesMut};
use vstd::prelude::*;

use crate::octets::be32;

verus! {

/// The growable buffer of the `bytes` crate.
#[verifier::external_type_specification]
#[verifier::external_body]
pub struct ExBytesMut(BytesMut);

/// The shared, immutable buffer of the `bytes` crate.
#[verifier::external_type_specification]
#[verifier::external_body]
pub struct ExBytes(Bytes);

/// The bytes that a `BytesMut` holds.
pub uninterp spec fn buffer_contents(buffer: BytesMut) -> Seq<u8>;

/// The bytes that a `Bytes` holds.
pub uninterp spec fn frozen_contents(bytes: Bytes) -> Seq<u8>;

/// Whether a buffer that holds `len` bytes can be given `additional` more. A buffer that grows asks
/// for at most twice what it has, so a quarter of the largest allocation is always to be had.
pub open spec fn has_room(len: nat, additional: nat) -> bool {
    4 * (len + additional) <= isize::MAX
}

/// `BytesMut::with_capacity`: an empty buffer. A capacity that no allocation can have is
/// ruled out.
pub assume_specification[ BytesMut::with_capacity ](capacity: usize) -> (buffer: BytesMut)
    requires
        capacity <= isize::MAX,
    ensures
        buffer_contents(buffer).len() == 0,
;

/// `BytesMut::len`: the number of bytes held, which no allocation lets pass `isize::MAX`.
pub assume_specification[ BytesMut::len ](buffer: &BytesMut) -> (n: usize)
    ensures
        n == buffer_contents(*buffer).len(),
        n <= isize::MAX,
;

/// `BytesMut::reserve`: makes room and leaves the contents as they are. It panics where the
/// allocation that it asks for passes the largest one. What a buffer has allocated beyond its
/// contents is not seen here: one that already has more than half of the largest allocation is out
/// of memory when it has to grow.
pub assume_specification[ BytesMut::reserve ](buffer: &mut BytesMut, additional: usize)
    requires
        has_room(buffer_contents(*old(buffer)).len(), additional as nat),
    ensures
        buffer_contents(*final(buffer)) == buffer_contents(*old(buffer)),
;

/// `BytesMut::split_to`: hands out the first `at` bytes and keeps the others. It panics where
/// fewer are held.
pub assume_specification[ BytesMut::split_to ](buffer: &mut BytesMut, at: usize) -> (front: BytesMut)
    requires
        at <= buffer_contents(*old(buffer)).len(),
    ensures
        buffer_contents(front) == buffer_contents(*old(buffer)).take(at as int),
        buffer_contents(*final(buffer)) == buffer_contents(*old(buffer)).skip(at as int),
;

/// `BytesMut::freeze`: the same bytes, immutable.
pub assume_specification[ BytesMut::freeze ](buffer: BytesMut) -> (bytes: Bytes)
    ensures
        frozen_contents(bytes) == buffer_contents(buffer),
;

/// `Bytes::new`: no bytes.
pub assume_specification[ Bytes::new ]() -> (bytes: Bytes)
    ensures
        frozen_contents(bytes).len() == 0,
;

/// `Bytes::clone`: another handle to the same bytes.
pub assume_specification[ <Bytes as Clone>::clone ](bytes: &Bytes) -> (copy: Bytes)
    ensures
        frozen_contents(copy) == frozen_contents(*bytes),
;

/// `BufMut::put_u8` on a `BytesMut`: appends one byte. It panics where the contents would pass
/// the largest allocation, as `reserve` does.
#[verifier::external_body]
pub(crate) fn put_u8(buffer: &mut BytesMut, n: u8)
    requires
        has_room(buffer_contents(*old(buffer)).len(), 1),
    ensures
        buffer_contents(*final(buffer)) == buffer_contents(*old(buffer)) + seq![n],
{
    buffer.put_u8(n);
}

/// `BufMut::put_u32` on a `BytesMut`: appends four bytes, the most significant first. It panics
/// where the contents would pass the largest allocation, as `reserve` does.
#[verifier::external_body]
pub(crate) fn put_u32(buffer: &mut BytesMut, n: u32)
    requires
        has_room(buffer_contents(*old(buffer)).len(), 4),
    ensures
        buffer_contents(*final(buffer)) == buffer_contents(*old(buffer)) + be32(n),
{
    buffer.put_u32(n);
}

/// `BufMut::put_slice` on a `BytesMut`: appends the bytes. It panics where the contents would
/// pass the largest allocation, as `reserve` does.
#[verifier::external_body]
pub(crate) fn put_slice(buffer: &mut BytesMut, bytes: &[u8])
    requires
        has_room(buffer_contents(*old(buffer)).len(), bytes@.len()),
    ensures
        buffer_contents(*final(buffer)) == buffer_contents(*old(buffer)) + bytes@,
{
    buffer.put_slice(bytes);
}

/// `BytesMut`'s `Deref`: the bytes held, as a slice.
#[verifier::external_body]
pub(crate) fn buffer_slice(buffer: &BytesMut) -> (bytes: &[u8])
    ensures
        bytes@ == buffer_contents(*buffer),
{
    buffer
}

/// `BytesMut`'s `DerefMut`: the bytes held, as a slice that can be written.
#[verifier::external_body]
pub(crate) fn buffer_slice_mut(buffer: &mut BytesMut) -> (bytes: &mut [u8])
    ensures
        bytes@ == buffer_contents(*old(buffer)),
        buffer_contents(*final(buffer)) == final(bytes)@,
{
    buffer
}

/// `Bytes`'s `Deref`: the bytes held, as a slice.
#[verifier::external_body]
pub(crate) fn frozen_slice(bytes: &Bytes) -> (slice: &[u8])
    ensures
        slice@ == frozen_contents(*bytes),
{
    bytes
}

} // verus!
