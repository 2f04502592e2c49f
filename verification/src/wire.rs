//! The byte sink and the byte cursor.
//!
//! Bytes are written into a `bytes::BytesMut` and read from a `bytes::Bytes`.
//! Verus does not look inside either type: this module names what each one
//! holds and states, call by call, what the `bytes` crate does to it. Nothing
//! in this module is proved; everything outside it is proved from it.

use crate::endian::be_bytes;
use crate::endian::be_value;
use bytes::{Buf, BufMut, Bytes, BytesMut};
use vstd::prelude::*;

verus! {

#[verifier::external_type_specification]
#[verifier::external_body]
pub struct ExBytesMut(bytes::BytesMut);

#[verifier::external_type_specification]
#[verifier::external_body]
pub struct ExBytes(bytes::Bytes);

/// The bytes that a sink holds, first written first.
pub uninterp spec fn written(sink: BytesMut) -> Seq<u8>;

/// The bytes that a cursor has not handed out yet, next one first.
pub uninterp spec fn unread(cursor: Bytes) -> Seq<u8>;

/// `BytesMut::with_capacity`: a sink that holds nothing. The capacity is a
/// hint for the allocation and does not show in what the sink holds.
#[verifier::external_body]
pub(crate) fn with_capacity(capacity: usize) -> (sink: BytesMut)
    ensures
        written(sink) == Seq::<u8>::empty(),
{
    BytesMut::with_capacity(capacity)
}

/// `BytesMut::len`: how many bytes the sink holds.
#[verifier::external_body]
pub(crate) fn sink_len(sink: &BytesMut) -> (n: usize)
    ensures
        n == written(*sink).len(),
{
    sink.len()
}

/// `BufMut::put_u8` on a `BytesMut`: appends one byte. A `BytesMut` grows as
/// needed, so the call has no precondition short of exhausted memory.
#[verifier::external_body]
pub(crate) fn put_u8(sink: &mut BytesMut, n: u8)
    ensures
        written(*final(sink)) == written(*old(sink)) + be_bytes(n as nat, 1),
{
    sink.put_u8(n);
}

/// `BufMut::put_u16` on a `BytesMut`: appends the two bytes of `n`, most
/// significant first.
#[verifier::external_body]
pub(crate) fn put_u16(sink: &mut BytesMut, n: u16)
    ensures
        written(*final(sink)) == written(*old(sink)) + be_bytes(n as nat, 2),
{
    sink.put_u16(n);
}

/// `BufMut::put_u32` on a `BytesMut`: appends the four bytes of `n`, most
/// significant first.
#[verifier::external_body]
pub(crate) fn put_u32(sink: &mut BytesMut, n: u32)
    ensures
        written(*final(sink)) == written(*old(sink)) + be_bytes(n as nat, 4),
{
    sink.put_u32(n);
}

/// `BufMut::put_u64` on a `BytesMut`: appends the eight bytes of `n`, most
/// significant first.
#[verifier::external_body]
pub(crate) fn put_u64(sink: &mut BytesMut, n: u64)
    ensures
        written(*final(sink)) == written(*old(sink)) + be_bytes(n as nat, 8),
{
    sink.put_u64(n);
}

/// `BufMut::put_u128` on a `BytesMut`: appends the sixteen bytes of `n`, most
/// significant first.
#[verifier::external_body]
pub(crate) fn put_u128(sink: &mut BytesMut, n: u128)
    ensures
        written(*final(sink)) == written(*old(sink)) + be_bytes(n as nat, 16),
{
    sink.put_u128(n);
}

/// `BufMut::put` on a `BytesMut`, with a slice as the source: appends the
/// bytes of the slice in order.
#[verifier::external_body]
pub(crate) fn put(sink: &mut BytesMut, src: &[u8])
    ensures
        written(*final(sink)) == written(*old(sink)) + src@,
{
    sink.put(src);
}

/// Indexed assignment through `DerefMut` of `BytesMut`: replaces the byte at
/// `at` and leaves every other byte as it was. The index must be in range.
#[verifier::external_body]
pub(crate) fn set_byte(sink: &mut BytesMut, at: usize, n: u8)
    requires
        at < written(*old(sink)).len(),
    ensures
        written(*final(sink)) == written(*old(sink)).update(at as int, n),
{
    sink[at] = n;
}

/// `BytesMut::truncate`: keeps the first `len` bytes and drops the rest; does
/// nothing when the sink holds no more than `len` bytes.
#[verifier::external_body]
pub(crate) fn truncate(sink: &mut BytesMut, len: usize)
    ensures
        written(*final(sink)) == if len <= written(*old(sink)).len() {
            written(*old(sink)).take(len as int)
        } else {
            written(*old(sink))
        },
{
    sink.truncate(len);
}

/// `BytesMut::freeze`: the same bytes, as a cursor that has read none of them.
#[verifier::external_body]
pub(crate) fn freeze(sink: BytesMut) -> (cursor: Bytes)
    ensures
        unread(cursor) == written(sink),
{
    sink.freeze()
}

/// `Buf::remaining` on a `Bytes`: how many bytes are left to read.
#[verifier::external_body]
pub(crate) fn remaining(cursor: &Bytes) -> (n: usize)
    ensures
        n == unread(*cursor).len(),
{
    cursor.remaining()
}

/// `Buf::chunk` on a `Bytes`: all the bytes left to read, as one slice. The
/// cursor does not move.
#[verifier::external_body]
pub(crate) fn chunk(cursor: &Bytes) -> (rest: &[u8])
    ensures
        rest@ == unread(*cursor),
{
    cursor.chunk()
}

/// `Clone::clone` on a `Bytes`: a second cursor at the same place over the
/// same bytes.
#[verifier::external_body]
pub(crate) fn fork(cursor: &Bytes) -> (copy: Bytes)
    ensures
        unread(copy) == unread(*cursor),
{
    cursor.clone()
}

/// `Buf::advance` on a `Bytes`: skips `cnt` bytes. It panics past the end, so
/// `cnt` bytes must be left.
#[verifier::external_body]
pub(crate) fn advance(cursor: &mut Bytes, cnt: usize)
    requires
        cnt <= unread(*old(cursor)).len(),
    ensures
        unread(*final(cursor)) == unread(*old(cursor)).skip(cnt as int),
{
    cursor.advance(cnt);
}

/// `Bytes::split_to`: hands out the next `at` bytes as a cursor of their own
/// and moves past them. It panics past the end, so `at` bytes must be left.
#[verifier::external_body]
pub(crate) fn split_to(cursor: &mut Bytes, at: usize) -> (front: Bytes)
    requires
        at <= unread(*old(cursor)).len(),
    ensures
        unread(front) == unread(*old(cursor)).take(at as int),
        unread(*final(cursor)) == unread(*old(cursor)).skip(at as int),
{
    cursor.split_to(at)
}

/// `Buf::copy_to_slice` on a `Bytes`: fills `dst` with the next bytes and
/// moves past them. It panics when fewer bytes are left than `dst` holds.
#[verifier::external_body]
pub(crate) fn copy_to_slice(cursor: &mut Bytes, dst: &mut Vec<u8>)
    requires
        old(dst)@.len() <= unread(*old(cursor)).len(),
    ensures
        final(dst)@ == unread(*old(cursor)).take(old(dst)@.len() as int),
        unread(*final(cursor)) == unread(*old(cursor)).skip(old(dst)@.len() as int),
{
    cursor.copy_to_slice(dst);
}

/// `Buf::get_u8` on a `Bytes`: reads one byte. It panics at the end, so one
/// byte must be left.
#[verifier::external_body]
pub(crate) fn get_u8(cursor: &mut Bytes) -> (n: u8)
    requires
        1 <= unread(*old(cursor)).len(),
    ensures
        n as nat == be_value(unread(*old(cursor)).take(1)),
        unread(*final(cursor)) == unread(*old(cursor)).skip(1),
{
    cursor.get_u8()
}

/// `Buf::get_u16` on a `Bytes`: reads two bytes as a big-endian number. Two
/// bytes must be left.
#[verifier::external_body]
pub(crate) fn get_u16(cursor: &mut Bytes) -> (n: u16)
    requires
        2 <= unread(*old(cursor)).len(),
    ensures
        n as nat == be_value(unread(*old(cursor)).take(2)),
        unread(*final(cursor)) == unread(*old(cursor)).skip(2),
{
    cursor.get_u16()
}

/// `Buf::get_u32` on a `Bytes`: reads four bytes as a big-endian number. Four
/// bytes must be left.
#[verifier::external_body]
pub(crate) fn get_u32(cursor: &mut Bytes) -> (n: u32)
    requires
        4 <= unread(*old(cursor)).len(),
    ensures
        n as nat == be_value(unread(*old(cursor)).take(4)),
        unread(*final(cursor)) == unread(*old(cursor)).skip(4),
{
    cursor.get_u32()
}

/// `Buf::get_u64` on a `Bytes`: reads eight bytes as a big-endian number.
/// Eight bytes must be left.
#[verifier::external_body]
pub(crate) fn get_u64(cursor: &mut Bytes) -> (n: u64)
    requires
        8 <= unread(*old(cursor)).len(),
    ensures
        n as nat == be_value(unread(*old(cursor)).take(8)),
        unread(*final(cursor)) == unread(*old(cursor)).skip(8),
{
    cursor.get_u64()
}

/// `Buf::get_u128` on a `Bytes`: reads sixteen bytes as a big-endian number.
/// Sixteen bytes must be left.
#[verifier::external_body]
pub(crate) fn get_u128(cursor: &mut Bytes) -> (n: u128)
    requires
        16 <= unread(*old(cursor)).len(),
    ensures
        n as nat == be_value(unread(*old(cursor)).take(16)),
        unread(*final(cursor)) == unread(*old(cursor)).skip(16),
{
    cursor.get_u128()
}

} // verus!
