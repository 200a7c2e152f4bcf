//! Writing newline-terminated messages with a varint length prefix that counts
//! the newline.

use vstd::prelude::*;

use crate::error::CodecError;
use crate::varint::{encode_varint, spec_encode_varint};
use crate::write::append_bytes;

verus! {

/// A message framed with the varint of its length plus one in front and a
/// newline after it.
pub open spec fn spec_lpm_line_frame(msg: Seq<u8>) -> Seq<u8> {
    spec_encode_varint(msg.len() + 1) + msg + seq![10u8]
}

/// Writes newline-terminated messages with a varint length prefix.
pub trait WriteLpm {
    /// Writes the varint of the length of `msg` plus one, then `msg`, then a
    /// newline.
    fn write_lpm(&mut self, msg: &[u8]) -> Result<(), CodecError>
        requires
            msg@.len() < usize::MAX,
    ;
}

impl WriteLpm for Vec<u8> {
    fn write_lpm(&mut self, msg: &[u8]) -> (r: Result<(), CodecError>)
        ensures
            r is Ok,
            final(self)@ == old(self)@ + spec_lpm_line_frame(msg@),
    {
        let prefix = encode_varint(msg.len() + 1);
        append_bytes(self, prefix.as_slice());
        append_bytes(self, msg);
        let nl = [10u8];
        append_bytes(self, nl.as_slice());
        assert(self@ =~= old(self)@ + spec_lpm_line_frame(msg@));
        Ok(())
    }
}

} // verus!
