//! Byte strings of the `bytes` crate: `Bytes`, which holds the byte string of
//! a token, and `BytesMut`, the buffer in which byte strings are put together.
//!
//! Verus does not look into either type. Each gets a name for the bytes that
//! it holds, and each method that the tokenizer calls gets a function here
//! whose contract says, over those names, what the method does.

use bytes::{Bytes, BytesMut};
use vstd::prelude::*;

verus! {

/// `bytes::Bytes`, a byte string that is cheap to share. It is declared so
/// that it can stand in fields and signatures; what it holds is named by
/// `bytes_contents`.
#[verifier::external_type_specification]
#[verifier::external_body]
pub struct ExBytes(bytes::Bytes);

/// `bytes::BytesMut`, a byte buffer that grows. What it holds is named by
/// `buffer_contents`.
#[verifier::external_type_specification]
#[verifier::external_body]
pub struct ExBytesMut(bytes::BytesMut);

/// The bytes that a `Bytes` holds, in order.
pub uninterp spec fn bytes_contents(b: Bytes) -> Seq<u8>;

/// The bytes that a `BytesMut` holds, in order.
pub uninterp spec fn buffer_contents(buf: BytesMut) -> Seq<u8>;

/// Calls `Bytes::copy_from_slice`, which copies the slice into a new `Bytes`.
#[verifier::external_body]
pub(crate) fn bytes_from_slice(data: &[u8]) -> (b: Bytes)
    ensures
        bytes_contents(b) == data@,
{
    Bytes::copy_from_slice(data)
}

/// Calls `Bytes::as_ref`, which lends the bytes as a slice.
#[verifier::external_body]
pub(crate) fn bytes_as_slice(b: &Bytes) -> (data: &[u8])
    ensures
        data@ == bytes_contents(*b),
{
    b.as_ref()
}

/// Calls `BytesMut::new`, which makes an empty buffer.
#[verifier::external_body]
pub(crate) fn buffer_new() -> (buf: BytesMut)
    ensures
        buffer_contents(buf) == Seq::<u8>::empty(),
{
    BytesMut::new()
}

/// Calls `BytesMut::extend_from_slice`, which appends the slice to the
/// buffer. The method first calls `BytesMut::reserve`, which panics where the
/// new capacity overflows `usize`; the precondition leaves that case out.
/// Running out of memory is not modelled, as for `Vec`.
#[verifier::external_body]
pub(crate) fn buffer_extend(buf: &mut BytesMut, data: &[u8])
    requires
        buffer_contents(*old(buf)).len() + data@.len() <= usize::MAX,
    ensures
        buffer_contents(*final(buf)) == buffer_contents(*old(buf)) + data@,
{
    buf.extend_from_slice(data)
}

/// Calls `BytesMut::freeze`, which turns the buffer into a `Bytes` of the
/// same bytes.
#[verifier::external_body]
pub(crate) fn buffer_freeze(buf: BytesMut) -> (b: Bytes)
    ensures
        bytes_contents(b) == buffer_contents(buf),
{
    buf.freeze()
}

/// The bytes of `left` followed by the bytes of `right`, as a new `Bytes`.
pub(crate) fn concat(left: &Bytes, right: &Bytes) -> (joined: Bytes)
    requires
        bytes_contents(*left).len() + bytes_contents(*right).len() <= usize::MAX,
    ensures
        bytes_contents(joined) == bytes_contents(*left) + bytes_contents(*right),
{
    let mut buf = buffer_new();
    buffer_extend(&mut buf, bytes_as_slice(left));
    buffer_extend(&mut buf, bytes_as_slice(right));
    buffer_freeze(buf)
}

} // verus!
