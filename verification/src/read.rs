//! Reading length-prefixed messages: a varint prefix (`ReadVpm`) or a
//! big-endian `u32` prefix (`ReadLpm`).

use vstd::prelude::*;

use vstd::slice::{slice_subrange, slice_to_vec};

use crate::buffer::spec_be_u32;
use crate::error::CodecError;
use crate::varint::{
    decode_varint, lemma_decode_encode_varint, spec_decode_varint, spec_encode_varint, varint_end,
    varint_len,
};
use crate::write::{spec_be_bytes, spec_lpm_frame, spec_vpm_frame};
use crate::MAX_MESSAGE_SIZE;

verus! {

/// The four bytes read as a big-endian integer.
pub fn be_u32(bytes: [u8; 4]) -> (v: u32)
    ensures
        v as nat == spec_be_u32(bytes@[0], bytes@[1], bytes@[2], bytes@[3]),
{
    let b0 = bytes[0];
    let b1 = bytes[1];
    let b2 = bytes[2];
    let b3 = bytes[3];
    assert(((b0 as u32) << 24) == b0 as u32 * 16777216) by (bit_vector);
    assert(((b1 as u32) << 16) == b1 as u32 * 65536) by (bit_vector);
    assert(((b2 as u32) << 8) == b2 as u32 * 256) by (bit_vector);
    ((b0 as u32) << 24) + ((b1 as u32) << 16) + ((b2 as u32) << 8) + (b3 as u32)
}

/// Reading back the big-endian bytes of `v` gives `v`.
pub proof fn lemma_be_roundtrip(v: u32)
    ensures
        spec_be_u32(spec_be_bytes(v)[0], spec_be_bytes(v)[1], spec_be_bytes(v)[2], spec_be_bytes(v)[3])
            == v,
{
    assert((v / 16777216) * 16777216 + (v / 65536 % 256) * 65536 + (v / 256 % 256) * 256 + v % 256
        == v) by (bit_vector);
}

/// What reading a message of `len` bytes from `s` gives, and what is left of
/// `s`: lengths above `MAX_MESSAGE_SIZE` are refused before anything is read,
/// and a short input is used up.
pub open spec fn spec_read_data(len: usize, s: Seq<u8>) -> (Result<Seq<u8>, CodecError>, Seq<u8>) {
    if len > MAX_MESSAGE_SIZE {
        (Err(CodecError::MessageTooLarge), s)
    } else if s.len() < len {
        (Err(CodecError::UnexpectedEof), Seq::<u8>::empty())
    } else {
        (Ok(s.take(len as int)), s.skip(len as int))
    }
}

/// What reading a varint-prefixed message from `s` gives, and what is left.
pub open spec fn spec_read_vpm(s: Seq<u8>) -> (Result<Seq<u8>, CodecError>, Seq<u8>) {
    match spec_decode_varint(s) {
        Ok(None) => (Err(CodecError::UnexpectedEof), Seq::<u8>::empty()),
        Err(e) => (Err(e), s.skip(varint_len(s).unwrap() as int)),
        Ok(Some((len, n))) => spec_read_data(len, s.skip(n as int)),
    }
}

/// What reading a big-endian-prefixed message from `s` gives, and what is left.
pub open spec fn spec_read_lpm(s: Seq<u8>) -> (Result<Seq<u8>, CodecError>, Seq<u8>) {
    if s.len() < 4 {
        (Err(CodecError::UnexpectedEof), Seq::<u8>::empty())
    } else {
        spec_read_data(spec_be_u32(s[0], s[1], s[2], s[3]) as usize, s.skip(4))
    }
}

/// A read that may find the input already at its end: `Ok(None)` there, and
/// otherwise the outcome of `read`.
pub open spec fn spec_try_read(
    s: Seq<u8>,
    read: (Result<Seq<u8>, CodecError>, Seq<u8>),
) -> (Result<Option<Seq<u8>>, CodecError>, Seq<u8>) {
    if s.len() == 0 {
        (Ok(None), s)
    } else {
        match read.0 {
            Ok(m) => (Ok(Some(m)), read.1),
            Err(e) => (Err(e), read.1),
        }
    }
}

/// A message as the executable code returns it, seen as its bytes.
pub open spec fn read_view(r: Result<Vec<u8>, CodecError>) -> Result<Seq<u8>, CodecError> {
    match r {
        Ok(m) => Ok(m@),
        Err(e) => Err(e),
    }
}

/// An optional message as the executable code returns it, seen as its bytes.
pub open spec fn try_read_view(r: Result<Option<Vec<u8>>, CodecError>) -> Result<
    Option<Seq<u8>>,
    CodecError,
> {
    match r {
        Ok(Some(m)) => Ok(Some(m@)),
        Ok(None) => Ok(None),
        Err(e) => Err(e),
    }
}

/// Reads messages framed with a varint length prefix.
pub trait ReadVpm {
    /// Reads one message.
    fn read_vpm(&mut self) -> Result<Vec<u8>, CodecError>;

    /// Reads one message, or gives `Ok(None)` when the input is at its end.
    fn try_read_vpm(&mut self) -> Result<Option<Vec<u8>>, CodecError>;
}

/// Reads messages framed with a big-endian `u32` length prefix.
pub trait ReadLpm {
    /// Reads one message.
    fn read_lpm(&mut self) -> Result<Vec<u8>, CodecError>;

    /// Reads one message, or gives `Ok(None)` when the input is at its end.
    fn try_read_lpm(&mut self) -> Result<Option<Vec<u8>>, CodecError>;
}

/// What a reader that takes a varint prefix one byte at a time does next.
#[derive(Clone, Copy, Debug, PartialEq, Eq, Structural)]
pub enum VarIntStep {
    /// Read one more byte.
    NeedByte,
    /// The input ended before the first byte of the varint.
    Ended,
    /// The varint is complete and holds this length.
    Length(usize),
    /// Reading the varint failed.
    Failed(CodecError),
}

/// Decides the next step of reading a varint, given the bytes read so far and
/// whether the input has ended: a complete varint gives its length or its
/// overflow; an incomplete one needs another byte, unless the input has ended,
/// which ends reading cleanly before the first byte and fails after it.
pub fn varint_step(prefix: &[u8], at_end: bool) -> (r: VarIntStep)
    ensures
        match spec_decode_varint(prefix@) {
            Ok(Some((v, n))) => r == VarIntStep::Length(v),
            Err(e) => r == VarIntStep::Failed(e),
            Ok(None) => if !at_end {
                r == VarIntStep::NeedByte
            } else if prefix@.len() == 0 {
                r == VarIntStep::Ended
            } else {
                r == VarIntStep::Failed(CodecError::UnexpectedEof)
            },
        },
{
    match decode_varint(prefix) {
        Ok(Some((v, _))) => VarIntStep::Length(v),
        Err(e) => VarIntStep::Failed(e),
        Ok(None) => {
            if !at_end {
                VarIntStep::NeedByte
            } else if prefix.len() == 0 {
                VarIntStep::Ended
            } else {
                VarIntStep::Failed(CodecError::UnexpectedEof)
            }
        },
    }
}

/// Refuses message lengths above `MAX_MESSAGE_SIZE`.
pub fn check_message_len(len: usize) -> (r: Result<(), CodecError>)
    ensures
        len > MAX_MESSAGE_SIZE ==> r == Err::<(), CodecError>(CodecError::MessageTooLarge),
        len <= MAX_MESSAGE_SIZE ==> r is Ok,
{
    if len > MAX_MESSAGE_SIZE {
        Err(CodecError::MessageTooLarge)
    } else {
        Ok(())
    }
}

/// Reads the `len` bytes of a message from the front of `src`.
fn read_lpm_data<'a>(src: &mut &'a [u8], len: usize) -> (r: Result<Vec<u8>, CodecError>)
    ensures
        read_view(r) == spec_read_data(len, old(src)@).0,
        final(src)@ == spec_read_data(len, old(src)@).1,
{
    let s: &'a [u8] = *src;
    check_message_len(len)?;
    if s.len() < len {
        *src = slice_subrange(s, s.len(), s.len());
        proof {
            assert(src@ =~= Seq::<u8>::empty());
        }
        return Err(CodecError::UnexpectedEof);
    }
    let msg = slice_to_vec(slice_subrange(s, 0, len));
    *src = slice_subrange(s, len, s.len());
    proof {
        assert(msg@ =~= s@.take(len as int));
        assert(src@ =~= s@.skip(len as int));
    }
    Ok(msg)
}

impl<'a> ReadVpm for &'a [u8] {
    fn read_vpm(&mut self) -> (r: Result<Vec<u8>, CodecError>)
        ensures
            read_view(r) == spec_read_vpm(old(self)@).0,
            final(self)@ == spec_read_vpm(old(self)@).1,
    {
        let s: &'a [u8] = *self;
        match decode_varint(s) {
            Ok(None) => {
                *self = slice_subrange(s, s.len(), s.len());
                proof {
                    assert(self@ =~= Seq::<u8>::empty());
                }
                Err(CodecError::UnexpectedEof)
            },
            Err(e) => {
                let n = match varint_end(s) {
                    Some(n) => n,
                    None => s.len(),
                };
                *self = slice_subrange(s, n, s.len());
                proof {
                    assert(self@ =~= s@.skip(n as int));
                }
                Err(e)
            },
            Ok(Some((len, n))) => {
                *self = slice_subrange(s, n, s.len());
                proof {
                    assert(self@ =~= s@.skip(n as int));
                }
                read_lpm_data(self, len)
            },
        }
    }

    fn try_read_vpm(&mut self) -> (r: Result<Option<Vec<u8>>, CodecError>)
        ensures
            try_read_view(r) == spec_try_read(old(self)@, spec_read_vpm(old(self)@)).0,
            final(self)@ == spec_try_read(old(self)@, spec_read_vpm(old(self)@)).1,
    {
        if self.len() == 0 {
            return Ok(None);
        }
        match self.read_vpm() {
            Ok(m) => Ok(Some(m)),
            Err(e) => Err(e),
        }
    }
}

/// What reading a big-endian `u32` from `s` gives, and what is left.
pub open spec fn spec_read_be_u32(s: Seq<u8>) -> (Result<u32, CodecError>, Seq<u8>) {
    if s.len() < 4 {
        (Err(CodecError::UnexpectedEof), Seq::<u8>::empty())
    } else {
        (Ok(spec_be_u32(s[0], s[1], s[2], s[3]) as u32), s.skip(4))
    }
}

/// Reads a big-endian `u32` from the front of `src`; a short input is used up.
fn read_be_u32<'a>(src: &mut &'a [u8]) -> (r: Result<u32, CodecError>)
    ensures
        r == spec_read_be_u32(old(src)@).0,
        final(src)@ == spec_read_be_u32(old(src)@).1,
{
    let s: &'a [u8] = *src;
    if s.len() < 4 {
        *src = slice_subrange(s, s.len(), s.len());
        proof {
            assert(src@ =~= Seq::<u8>::empty());
        }
        return Err(CodecError::UnexpectedEof);
    }
    let v = be_u32([s[0], s[1], s[2], s[3]]);
    *src = slice_subrange(s, 4, s.len());
    proof {
        assert(src@ =~= s@.skip(4));
    }
    Ok(v)
}

/// Reads a big-endian `u32` from the front of `src`, or gives `Ok(None)` when
/// `src` is empty.
fn try_read_be_u32<'a>(src: &mut &'a [u8]) -> (r: Result<Option<u32>, CodecError>)
    ensures
        old(src)@.len() == 0 ==> r == Ok::<Option<u32>, CodecError>(None) && final(src)@ == old(
            src,
        )@,
        old(src)@.len() > 0 ==> final(src)@ == spec_read_be_u32(old(src)@).1 && match spec_read_be_u32(
            old(src)@,
        ).0 {
            Ok(v) => r == Ok::<Option<u32>, CodecError>(Some(v)),
            Err(e) => r == Err::<Option<u32>, CodecError>(e),
        },
{
    if src.len() >= 1 {
        match read_be_u32(src) {
            Ok(v) => Ok(Some(v)),
            Err(e) => Err(e),
        }
    } else {
        Ok(None)
    }
}

impl<'a> ReadLpm for &'a [u8] {
    fn read_lpm(&mut self) -> (r: Result<Vec<u8>, CodecError>)
        ensures
            read_view(r) == spec_read_lpm(old(self)@).0,
            final(self)@ == spec_read_lpm(old(self)@).1,
    {
        let len = read_be_u32(self)?;
        read_lpm_data(self, len as usize)
    }

    fn try_read_lpm(&mut self) -> (r: Result<Option<Vec<u8>>, CodecError>)
        ensures
            try_read_view(r) == spec_try_read(old(self)@, spec_read_lpm(old(self)@)).0,
            final(self)@ == spec_try_read(old(self)@, spec_read_lpm(old(self)@)).1,
    {
        match try_read_be_u32(self)? {
            Some(len) => Ok(Some(read_lpm_data(self, len as usize)?)),
            None => Ok(None),
        }
    }
}

/// Reading a message written with `write_vpm`, followed by any bytes, gives
/// the message back and leaves the bytes that followed.
pub proof fn lemma_read_vpm_frame(msg: Seq<u8>, rest: Seq<u8>)
    requires
        msg.len() <= MAX_MESSAGE_SIZE,
    ensures
        spec_read_vpm(spec_vpm_frame(msg) + rest) == (Ok::<Seq<u8>, CodecError>(msg), rest),
        spec_try_read(spec_vpm_frame(msg) + rest, spec_read_vpm(spec_vpm_frame(msg) + rest)) == (
            Ok::<Option<Seq<u8>>, CodecError>(Some(msg)),
            rest,
        ),
{
    let e = spec_encode_varint(msg.len());
    let s = spec_vpm_frame(msg) + rest;
    assert(s =~= e + (msg + rest));
    lemma_decode_encode_varint(msg.len() as usize, msg + rest);
    assert(s.skip(e.len() as int) =~= msg + rest);
    assert((msg + rest).take(msg.len() as int) =~= msg);
    assert((msg + rest).skip(msg.len() as int) =~= rest);
}

/// Reading a message written with `write_lpm`, followed by any bytes, gives
/// the message back and leaves the bytes that followed.
pub proof fn lemma_read_lpm_frame(msg: Seq<u8>, rest: Seq<u8>)
    requires
        msg.len() <= MAX_MESSAGE_SIZE,
    ensures
        spec_read_lpm(spec_lpm_frame(msg) + rest) == (Ok::<Seq<u8>, CodecError>(msg), rest),
        spec_try_read(spec_lpm_frame(msg) + rest, spec_read_lpm(spec_lpm_frame(msg) + rest)) == (
            Ok::<Option<Seq<u8>>, CodecError>(Some(msg)),
            rest,
        ),
{
    let e = spec_be_bytes(msg.len() as u32);
    let s = spec_lpm_frame(msg) + rest;
    assert(s =~= e + (msg + rest));
    lemma_be_roundtrip(msg.len() as u32);
    assert(s[0] == e[0] && s[1] == e[1] && s[2] == e[2] && s[3] == e[3]);
    assert(s.skip(4) =~= msg + rest);
    assert((msg + rest).take(msg.len() as int) =~= msg);
    assert((msg + rest).skip(msg.len() as int) =~= rest);
}

} // verus!
