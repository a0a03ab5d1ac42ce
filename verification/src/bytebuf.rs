//! What the library relies on of the `bytes` crate: the two buffer types, a
//! name for the bytes that each of them holds, and the operations on them.
//!
//! None of the contracts below describes what happens when the allocator runs
//! out of memory.

use bytes::{Buf, BufMut, Bytes, BytesMut};
use vstd::prelude::*;

verus! {

/// `bytes::Bytes`, an immutable byte buffer.
#[verifier::external_type_specification]
#[verifier::external_body]
pub struct ExBytes(bytes::Bytes);

/// `bytes::BytesMut`, a growable byte buffer.
#[verifier::external_type_specification]
#[verifier::external_body]
pub struct ExBytesMut(bytes::BytesMut);

/// The bytes that `buffer` holds, in order.
pub uninterp spec fn content(buffer: Bytes) -> Seq<u8>;

/// The bytes that `buffer` holds, in order.
pub uninterp spec fn content_mut(buffer: BytesMut) -> Seq<u8>;

/// `Bytes::new` makes an empty buffer.
pub assume_specification[ Bytes::new ]() -> (buffer: Bytes)
    ensures
        content(buffer) == Seq::<u8>::empty(),
;

/// `Bytes::len` counts the bytes held.
pub assume_specification[ Bytes::len ](buffer: &Bytes) -> (size: usize)
    ensures
        size == content(*buffer).len(),
;

/// `Bytes::is_empty` tells whether no byte is held.
pub assume_specification[ Bytes::is_empty ](buffer: &Bytes) -> (empty: bool)
    ensures
        empty == (content(*buffer).len() == 0),
;

/// `Bytes::split_to` returns the first `at` bytes and leaves the others. It
/// panics when there are fewer than `at` bytes.
pub assume_specification[ Bytes::split_to ](buffer: &mut Bytes, at: usize) -> (head: Bytes)
    requires
        at <= content(*old(buffer)).len(),
    ensures
        content(head) == content(*old(buffer)).take(at as int),
        content(*final(buffer)) == content(*old(buffer)).skip(at as int),
;

/// `Buf::get_u8` on a `Bytes` removes the first byte and returns it. It panics
/// when there is none.
#[verifier::external_body]
pub(crate) fn take_byte(buffer: &mut Bytes) -> (byte: u8)
    requires
        content(*old(buffer)).len() > 0,
    ensures
        byte == content(*old(buffer))[0],
        content(*final(buffer)) == content(*old(buffer)).skip(1),
{
    buffer.get_u8()
}

/// `Buf::advance` on a `Bytes` drops the first `count` bytes. It panics when
/// there are fewer.
#[verifier::external_body]
pub(crate) fn drop_front(buffer: &mut Bytes, count: usize)
    requires
        count <= content(*old(buffer)).len(),
    ensures
        content(*final(buffer)) == content(*old(buffer)).skip(count as int),
{
    buffer.advance(count);
}

/// `BytesMut::with_capacity` makes an empty buffer. It panics when asked for
/// more than `isize::MAX` bytes.
pub assume_specification[ BytesMut::with_capacity ](capacity: usize) -> (buffer: BytesMut)
    requires
        capacity <= isize::MAX,
    ensures
        content_mut(buffer) == Seq::<u8>::empty(),
;

/// `BytesMut::len` counts the bytes held.
pub assume_specification[ BytesMut::len ](buffer: &BytesMut) -> (size: usize)
    ensures
        size == content_mut(*buffer).len(),
;

/// `BytesMut::is_empty` tells whether no byte is held.
pub assume_specification[ BytesMut::is_empty ](buffer: &BytesMut) -> (empty: bool)
    ensures
        empty == (content_mut(*buffer).len() == 0),
;

/// `BytesMut::resize` cuts the buffer to its first `new_len` bytes, or extends
/// it to that size with copies of `value`. A buffer has room for `isize::MAX`
/// bytes, and growing beyond that panics.
pub assume_specification[ BytesMut::resize ](buffer: &mut BytesMut, new_len: usize, value: u8)
    requires
        new_len <= isize::MAX,
    ensures
        content_mut(*final(buffer)) == (if new_len <= content_mut(*old(buffer)).len() {
            content_mut(*old(buffer)).take(new_len as int)
        } else {
            content_mut(*old(buffer)) + Seq::new(
                (new_len - content_mut(*old(buffer)).len()) as nat,
                |i: int| value,
            )
        }),
;

/// `BytesMut::freeze` hands the same bytes on as a `Bytes`.
pub assume_specification[ BytesMut::freeze ](buffer: BytesMut) -> (frozen: Bytes)
    ensures
        content(frozen) == content_mut(buffer),
;

/// `BufMut::put_u8` on a `BytesMut` appends one byte. A buffer has room for
/// `isize::MAX` bytes.
#[verifier::external_body]
pub(crate) fn append_u8(buffer: &mut BytesMut, value: u8)
    requires
        content_mut(*old(buffer)).len() + 1 <= isize::MAX,
    ensures
        content_mut(*final(buffer)) == content_mut(*old(buffer)).push(value),
{
    buffer.put_u8(value);
}

/// `BufMut::put_u16` on a `BytesMut` appends a 16-bit number, the high byte
/// first. A buffer has room for `isize::MAX` bytes.
#[verifier::external_body]
pub(crate) fn append_u16(buffer: &mut BytesMut, value: u16)
    requires
        content_mut(*old(buffer)).len() + 2 <= isize::MAX,
    ensures
        content_mut(*final(buffer)) == content_mut(*old(buffer)).push((value / 256) as u8).push(
            (value % 256) as u8,
        ),
{
    buffer.put_u16(value);
}

/// `BufMut::put` on a `BytesMut` appends all the bytes of `data`. A buffer has
/// room for `isize::MAX` bytes.
#[verifier::external_body]
pub(crate) fn append_bytes(buffer: &mut BytesMut, data: Bytes)
    requires
        content_mut(*old(buffer)).len() + content(data).len() <= isize::MAX,
    ensures
        content_mut(*final(buffer)) == content_mut(*old(buffer)) + content(data),
{
    buffer.put(data);
}

} // verus!
