//! The write buffer: a small vector of bytes that lives inline until it
//! outgrows its inline room.
//!
//! The buffer is a `SmallVec`, whose code is not verified here. What this
//! module says of it is taken on trust from its source: each function below
//! makes one call into it and states what that call does to the bytes held.

use smallvec::SmallVec;
use vstd::prelude::*;

verus! {

/// How many bytes the write buffer holds inline. A writer made with its
/// usual limits hands its bytes on when it holds more.
pub const BUF_SIZE: usize = 64;

/// A `SmallVec` of bytes with `BUF_SIZE` bytes of inline room. Nothing of
/// its inside is known to the verifier but what `buffered` names.
#[verifier::external_body]
pub struct WriteBuffer {
    inner: SmallVec<[u8; BUF_SIZE]>,
}

/// The bytes that a write buffer holds, the first written first.
pub uninterp spec fn buffered(buf: &WriteBuffer) -> Seq<u8>;

/// `SmallVec::new`: the new buffer holds nothing.
#[verifier::external_body]
pub(crate) fn buffer_new() -> (buf: WriteBuffer)
    ensures
        buffered(&buf) == Seq::<u8>::empty(),
{
    WriteBuffer { inner: SmallVec::new() }
}

/// `SmallVec::len`: the number of bytes held.
#[verifier::external_body]
pub(crate) fn buffer_len(buf: &WriteBuffer) -> (n: usize)
    ensures
        n == buffered(buf).len(),
{
    buf.inner.len()
}

/// `SmallVec::push`: the byte goes behind those held already. A full
/// buffer grows to the next power of two, which must fit into an `isize`.
#[verifier::external_body]
pub(crate) fn buffer_push(buf: &mut WriteBuffer, byte: u8)
    requires
        buffered(old(buf)).len() <= usize::MAX / 4,
    ensures
        buffered(final(buf)) == buffered(old(buf)).push(byte),
{
    buf.inner.push(byte)
}

/// `SmallVec::reserve`: room is made for `additional` more bytes, and the
/// bytes held stay as they are. The room is rounded up to a power of two,
/// which must fit into an `isize`.
#[verifier::external_body]
pub(crate) fn buffer_reserve(buf: &mut WriteBuffer, additional: usize)
    requires
        buffered(old(buf)).len() + additional <= usize::MAX / 4,
    ensures
        buffered(final(buf)) == buffered(old(buf)),
{
    buf.inner.reserve(additional)
}

/// `SmallVec::clear`: nothing is held any more.
#[verifier::external_body]
pub(crate) fn buffer_clear(buf: &mut WriteBuffer)
    ensures
        buffered(final(buf)) == Seq::<u8>::empty(),
{
    buf.inner.clear()
}

/// `SmallVec::as_slice`: the bytes held, as a slice.
#[verifier::external_body]
pub(crate) fn buffer_as_slice(buf: &WriteBuffer) -> (bytes: &[u8])
    ensures
        bytes@ == buffered(buf),
{
    buf.inner.as_slice()
}

} // verus!
