//! A codec for varint-prefixed messages over `tokio_core` buffers.

use vstd::prelude::*;

use tokio_core::io::EasyBuf;

use crate::buffer::{easy_buf_as_slice, easy_buf_drain_to, easy_buf_len, easy_buf_view};
use crate::error::CodecError;
use crate::varint::{decode_varint, encode_varint, lemma_decode_encode_varint, spec_decode_varint};
use crate::write::{append_bytes, spec_vpm_frame};

verus! {

/// A codec for messages framed with their length as a varint in front.
#[derive(Copy, Clone, Debug, PartialEq, Eq, Structural)]
pub struct VpmCodec;

/// What decoding `s` gives, and what is left of `s`: a frame is taken only
/// when at least one byte follows it.
pub open spec fn spec_vpm_decode(s: Seq<u8>) -> (Result<Option<Seq<u8>>, CodecError>, Seq<u8>) {
    match spec_decode_varint(s) {
        Ok(None) => (Ok(None), s),
        Err(e) => (Err(e), s),
        Ok(Some((len, n))) => if len + n < s.len() {
            (Ok(Some(s.subrange(n as int, n + len))), s.skip(n + len))
        } else {
            (Ok(None), s)
        },
    }
}

/// The inputs on which decoding does not panic: the length and the prefix add
/// up within `usize`.
pub open spec fn vpm_decode_safe(s: Seq<u8>) -> bool {
    match spec_decode_varint(s) {
        Ok(Some((len, n))) => len + n <= usize::MAX,
        _ => true,
    }
}

/// A decoded message as the executable code returns it, seen as its bytes.
pub open spec fn easy_decoded_view(r: Result<Option<EasyBuf>, CodecError>) -> Result<
    Option<Seq<u8>>,
    CodecError,
> {
    match r {
        Ok(Some(b)) => Ok(Some(easy_buf_view(b))),
        Ok(None) => Ok(None),
        Err(e) => Err(e),
    }
}

impl VpmCodec {
    /// Whether decoding `buf` stays clear of the inputs on which it panics.
    pub fn can_decode(&self, buf: &EasyBuf) -> (b: bool)
        ensures
            b == vpm_decode_safe(easy_buf_view(*buf)),
    {
        match decode_varint(easy_buf_as_slice(buf)) {
            Ok(Some((len, n))) => len.checked_add(n).is_some(),
            _ => true,
        }
    }

    /// Takes one frame off the front of `buf` and returns its message, or
    /// `Ok(None)` while no frame followed by more bytes is there.
    pub fn decode(&mut self, buf: &mut EasyBuf) -> (r: Result<Option<EasyBuf>, CodecError>)
        requires
            vpm_decode_safe(easy_buf_view(*old(buf))),
        ensures
            easy_decoded_view(r) == spec_vpm_decode(easy_buf_view(*old(buf))).0,
            easy_buf_view(*final(buf)) == spec_vpm_decode(easy_buf_view(*old(buf))).1,
    {
        let ghost s = easy_buf_view(*buf);
        match decode_varint(easy_buf_as_slice(buf)) {
            Ok(Some((len, len_len))) => {
                if len + len_len < easy_buf_len(buf) {
                    let _ = easy_buf_drain_to(buf, len_len);
                    let msg = easy_buf_drain_to(buf, len);
                    proof {
                        assert(easy_buf_view(msg) =~= s.subrange(len_len as int, len_len + len));
                        assert(easy_buf_view(*buf) =~= s.skip(len_len + len));
                    }
                    Ok(Some(msg))
                } else {
                    Ok(None)
                }
            },
            Ok(None) => Ok(None),
            Err(e) => Err(e),
        }
    }

    /// Appends the length of `msg` as a varint, then `msg`, to `buf`.
    pub fn encode(&mut self, msg: Vec<u8>, buf: &mut Vec<u8>) -> (r: Result<(), CodecError>)
        ensures
            r is Ok,
            final(buf)@ == old(buf)@ + spec_vpm_frame(msg@),
    {
        let prefix = encode_varint(msg.len());
        append_bytes(buf, prefix.as_slice());
        append_bytes(buf, msg.as_slice());
        assert(buf@ =~= old(buf)@ + spec_vpm_frame(msg@));
        Ok(())
    }
}

/// Decoding a frame that more bytes follow gives its message back and leaves
/// those bytes.
pub proof fn lemma_vpm_decode_frame(msg: Seq<u8>, rest: Seq<u8>)
    requires
        spec_vpm_frame(msg).len() <= usize::MAX,
        rest.len() > 0,
    ensures
        vpm_decode_safe(spec_vpm_frame(msg) + rest),
        spec_vpm_decode(spec_vpm_frame(msg) + rest) == (Ok::<Option<Seq<u8>>, CodecError>(
            Some(msg),
        ), rest),
{
    let s = spec_vpm_frame(msg) + rest;
    let e = crate::varint::spec_encode_varint(msg.len());
    assert(s =~= e + (msg + rest));
    lemma_decode_encode_varint(msg.len() as usize, msg + rest);
    assert(s.subrange(e.len() as int, (e.len() + msg.len()) as int) =~= msg);
    assert(s.skip((e.len() + msg.len()) as int) =~= rest);
}

} // verus!
