//! Writing length-prefixed messages: a varint prefix (`WriteVpm`) or a
//! big-endian `u32` prefix (`WriteLpm`).

use vstd::prelude::*;

use crate::error::CodecError;
use crate::read::check_message_len;
use crate::varint::{encode_varint, spec_encode_varint};
use crate::MAX_MESSAGE_SIZE;

verus! {

/// The four bytes of `v`, most significant first.
pub open spec fn spec_be_bytes(v: u32) -> Seq<u8> {
    seq![(v / 16777216) as u8, (v / 65536 % 256) as u8, (v / 256 % 256) as u8, (v % 256) as u8]
}

/// The four bytes of `val`, most significant first.
pub fn be_bytes(val: u32) -> (bytes: [u8; 4])
    ensures
        bytes@ == spec_be_bytes(val),
{
    assert((val >> 24) as u8 == (val / 16777216) as u8) by (bit_vector);
    assert((val >> 16) as u8 == (val / 65536 % 256) as u8) by (bit_vector);
    assert((val >> 8) as u8 == (val / 256 % 256) as u8) by (bit_vector);
    assert(val as u8 == (val % 256) as u8) by (bit_vector);
    let bytes = [(val >> 24) as u8, (val >> 16) as u8, (val >> 8) as u8, val as u8];
    assert(bytes@ =~= spec_be_bytes(val));
    bytes
}

/// Appends the bytes of `s` to `v`.
pub(crate) fn append_bytes(v: &mut Vec<u8>, s: &[u8])
    ensures
        final(v)@ == old(v)@ + s@,
{
    let ghost v0 = v@;
    let mut i: usize = 0;
    while i < s.len()
        invariant
            i <= s@.len(),
            v@ == v0 + s@.take(i as int),
        decreases s@.len() - i,
    {
        v.push(s[i]);
        i = i + 1;
        assert(v@ =~= v0 + s@.take(i as int));
    }
    assert(s@.take(i as int) =~= s@);
}

/// A message framed with its length as a varint in front.
pub open spec fn spec_vpm_frame(msg: Seq<u8>) -> Seq<u8> {
    spec_encode_varint(msg.len()) + msg
}

/// A message framed with its length as a big-endian `u32` in front.
pub open spec fn spec_lpm_frame(msg: Seq<u8>) -> Seq<u8> {
    spec_be_bytes(msg.len() as u32) + msg
}

/// Writes messages framed with a varint length prefix.
pub trait WriteVpm {
    /// Writes the length of `msg` as a varint, then `msg`.
    fn write_vpm(&mut self, msg: &[u8]) -> Result<(), CodecError>;
}

/// Writes messages framed with a big-endian `u32` length prefix.
pub trait WriteLpm {
    /// Writes the length of `msg` as a big-endian `u32`, then `msg`; refuses
    /// messages longer than `MAX_MESSAGE_SIZE`.
    fn write_lpm(&mut self, msg: &[u8]) -> Result<(), CodecError>;
}

impl WriteVpm for Vec<u8> {
    fn write_vpm(&mut self, msg: &[u8]) -> (r: Result<(), CodecError>)
        ensures
            r is Ok,
            final(self)@ == old(self)@ + spec_vpm_frame(msg@),
    {
        let prefix = encode_varint(msg.len());
        append_bytes(self, prefix.as_slice());
        append_bytes(self, msg);
        assert(self@ =~= old(self)@ + spec_vpm_frame(msg@));
        Ok(())
    }
}

impl WriteLpm for Vec<u8> {
    fn write_lpm(&mut self, msg: &[u8]) -> (r: Result<(), CodecError>)
        ensures
            msg@.len() > MAX_MESSAGE_SIZE ==> r == Err::<(), CodecError>(
                CodecError::MessageTooLarge,
            ) && final(self)@ == old(self)@,
            msg@.len() <= MAX_MESSAGE_SIZE ==> r is Ok && final(self)@ == old(self)@
                + spec_lpm_frame(msg@),
    {
        check_message_len(msg.len())?;
        let bytes = be_bytes(msg.len() as u32);
        append_bytes(self, bytes.as_slice());
        append_bytes(self, msg);
        assert(self@ =~= old(self)@ + spec_lpm_frame(msg@));
        Ok(())
    }
}

} // verus!
