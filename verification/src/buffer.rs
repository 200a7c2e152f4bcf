//! The byte buffers of the `bytes` crate, as the rest of the library sees them.
//!
//! `BytesMut` and `Bytes` are opaque to the verifier; what they hold is named by
//! `bytes_mut_view` and `bytes_view`, and each method that the library calls has
//! a small wrapper below whose contract states, over those names, what the
//! method does according to the `bytes` source.

use vstd::prelude::*;

use bytes::{Buf, Bytes, BytesMut};
use std::io::Cursor;
use tokio_core::io::EasyBuf;

use crate::write::append_bytes;

verus! {

#[verifier::external_type_specification]
#[verifier::external_body]
pub struct ExBytesMut(BytesMut);

#[verifier::external_type_specification]
#[verifier::external_body]
pub struct ExBytes(Bytes);

/// The bytes that a `BytesMut` holds, in order.
pub uninterp spec fn bytes_mut_view(b: BytesMut) -> Seq<u8>;

/// The bytes that a `Bytes` holds, in order.
pub uninterp spec fn bytes_view(b: Bytes) -> Seq<u8>;

/// `BytesMut::new`: an empty buffer.
#[verifier::external_body]
pub(crate) fn bytes_mut_new() -> (b: BytesMut)
    ensures
        bytes_mut_view(b) == Seq::<u8>::empty(),
{
    BytesMut::new()
}

/// `BytesMut::with_capacity`: an empty buffer; the capacity is only a hint and
/// is not stated. Capacities above `isize::MAX` are left out, on which the
/// allocation panics.
#[verifier::external_body]
pub(crate) fn bytes_mut_with_capacity(capacity: usize) -> (b: BytesMut)
    requires
        capacity <= isize::MAX,
    ensures
        bytes_mut_view(b) == Seq::<u8>::empty(),
{
    BytesMut::with_capacity(capacity)
}

/// `BytesMut::len`: the number of bytes held.
#[verifier::external_body]
pub(crate) fn bytes_mut_len(b: &BytesMut) -> (n: usize)
    ensures
        n == bytes_mut_view(*b).len(),
{
    b.len()
}

/// Dereferencing a `BytesMut`: a slice of exactly the bytes held.
#[verifier::external_body]
pub(crate) fn bytes_mut_as_slice(b: &BytesMut) -> (s: &[u8])
    ensures
        s@ == bytes_mut_view(*b),
{
    &b[..]
}

/// `BytesMut::from` on a `Vec<u8>`: a buffer holding exactly the vector's
/// bytes; it takes over the vector's allocation and does not grow it.
#[verifier::external_body]
pub(crate) fn bytes_mut_from_vec(v: Vec<u8>) -> (b: BytesMut)
    ensures
        bytes_mut_view(b) == v@,
{
    BytesMut::from(v)
}

/// Appends the bytes of `s` to `dst`. The result is built in a vector
/// allocated once with exactly the final length, so no buffer is grown.
pub(crate) fn append_to_bytes_mut(dst: &mut BytesMut, s: &[u8])
    requires
        bytes_mut_view(*old(dst)).len() + s@.len() <= isize::MAX,
    ensures
        bytes_mut_view(*final(dst)) == bytes_mut_view(*old(dst)) + s@,
{
    let cur = bytes_mut_as_slice(dst);
    let total = cur.len() + s.len();
    let mut v: Vec<u8> = Vec::with_capacity(total);
    append_bytes(&mut v, cur);
    append_bytes(&mut v, s);
    *dst = bytes_mut_from_vec(v);
}

/// `BytesMut::split_to`: removes and returns the first `at` bytes; panics when
/// `at` exceeds the length.
#[verifier::external_body]
pub(crate) fn bytes_mut_split_to(b: &mut BytesMut, at: usize) -> (front: BytesMut)
    requires
        at <= bytes_mut_view(*old(b)).len(),
    ensures
        bytes_mut_view(front) == bytes_mut_view(*old(b)).take(at as int),
        bytes_mut_view(*final(b)) == bytes_mut_view(*old(b)).skip(at as int),
{
    b.split_to(at)
}

/// `BytesMut::split_off`: removes and returns the bytes from `at` on; it panics
/// only when `at` exceeds the capacity, and is called here with `at` within
/// the length.
#[verifier::external_body]
pub(crate) fn bytes_mut_split_off(b: &mut BytesMut, at: usize) -> (back: BytesMut)
    requires
        at <= bytes_mut_view(*old(b)).len(),
    ensures
        bytes_mut_view(back) == bytes_mut_view(*old(b)).skip(at as int),
        bytes_mut_view(*final(b)) == bytes_mut_view(*old(b)).take(at as int),
{
    b.split_off(at)
}

/// `BytesMut::take`: removes and returns all the bytes held.
#[verifier::external_body]
pub(crate) fn bytes_mut_take(b: &mut BytesMut) -> (all: BytesMut)
    ensures
        bytes_mut_view(all) == bytes_mut_view(*old(b)),
        bytes_mut_view(*final(b)) == Seq::<u8>::empty(),
{
    b.take()
}

/// `BytesMut::freeze`: the same bytes, as an immutable `Bytes`.
#[verifier::external_body]
pub(crate) fn bytes_mut_freeze(b: BytesMut) -> (f: Bytes)
    ensures
        bytes_view(f) == bytes_mut_view(b),
{
    b.freeze()
}

/// Dereferencing a `Bytes`: a slice of exactly the bytes held.
#[verifier::external_body]
pub(crate) fn bytes_as_slice(b: &Bytes) -> (s: &[u8])
    ensures
        s@ == bytes_view(*b),
{
    &b[..]
}

/// `Bytes::len`: the number of bytes held.
#[verifier::external_body]
pub(crate) fn bytes_len(b: &Bytes) -> (n: usize)
    ensures
        n == bytes_view(*b).len(),
{
    b.len()
}

#[verifier::external_type_specification]
#[verifier::external_body]
pub struct ExEasyBuf(EasyBuf);

/// The bytes that a `tokio_core` `EasyBuf` holds, in order.
pub uninterp spec fn easy_buf_view(b: EasyBuf) -> Seq<u8>;

/// `EasyBuf::len`: the number of bytes held.
#[verifier::external_body]
#[allow(deprecated)]
pub(crate) fn easy_buf_len(b: &EasyBuf) -> (n: usize)
    ensures
        n == easy_buf_view(*b).len(),
{
    b.len()
}

/// `EasyBuf::as_slice`: a slice of exactly the bytes held.
#[verifier::external_body]
#[allow(deprecated)]
pub(crate) fn easy_buf_as_slice(b: &EasyBuf) -> (s: &[u8])
    ensures
        s@ == easy_buf_view(*b),
{
    b.as_slice()
}

/// `EasyBuf::drain_to`: removes and returns the first `at` bytes; panics when
/// `at` exceeds the length.
#[verifier::external_body]
#[allow(deprecated)]
pub(crate) fn easy_buf_drain_to(b: &mut EasyBuf, at: usize) -> (front: EasyBuf)
    requires
        at <= easy_buf_view(*old(b)).len(),
    ensures
        easy_buf_view(front) == easy_buf_view(*old(b)).take(at as int),
        easy_buf_view(*final(b)) == easy_buf_view(*old(b)).skip(at as int),
{
    b.drain_to(at)
}

/// Value of four bytes read as a big-endian unsigned integer.
pub open spec fn spec_be_u32(b0: u8, b1: u8, b2: u8, b3: u8) -> nat {
    b0 as nat * 16777216 + b1 as nat * 65536 + b2 as nat * 256 + b3 as nat
}

/// `Buf::get_u32_be` on a cursor over `src`: the first four bytes read as a
/// big-endian integer; it panics on fewer than four bytes.
#[verifier::external_body]
pub(crate) fn get_u32_be(src: &[u8]) -> (v: u32)
    requires
        src@.len() >= 4,
    ensures
        v as nat == spec_be_u32(src@[0], src@[1], src@[2], src@[3]),
{
    Cursor::new(src).get_u32_be()
}

} // verus!
