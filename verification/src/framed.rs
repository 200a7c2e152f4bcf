//! The decisions of a framed message stream: buffering what the transport
//! delivers, decoding messages out of it, and encoding messages to send.
//! Driving the transport itself is left to the caller.

use vstd::prelude::*;

use bytes::{Bytes, BytesMut};

use crate::buffer::{
    append_to_bytes_mut, bytes_mut_freeze, bytes_mut_len, bytes_mut_new, bytes_mut_view,
    bytes_mut_with_capacity, bytes_view,
};
use crate::codec::{decoded_view, Codec, LengthPrefixed};
use crate::error::CodecError;

verus! {

/// A message stream over a transport: incoming bytes are buffered until the
/// codec can decode a message out of them; outgoing messages are encoded into
/// a buffer sized after the recent encodings.
pub struct MsgFramed<S, T> {
    transport: S,
    codec: T,
    in_buffer: BytesMut,
    out_buffer_size: usize,
}

impl<S, T> MsgFramed<S, T> {
    /// The transport.
    pub closed spec fn transport(self) -> S {
        self.transport
    }

    /// The codec.
    pub closed spec fn codec(self) -> T {
        self.codec
    }

    /// Bytes received and not yet decoded.
    pub closed spec fn pending(self) -> Seq<u8> {
        bytes_mut_view(self.in_buffer)
    }

    /// The capacity with which the next outgoing buffer is made.
    pub closed spec fn out_buffer_size(self) -> nat {
        self.out_buffer_size as nat
    }
}

impl<S, T: Codec> MsgFramed<S, T> {
    /// A stream over `transport` using `codec`, with nothing buffered.
    pub fn new(transport: S, codec: T) -> (r: MsgFramed<S, T>)
        ensures
            r.transport() == transport,
            r.codec() == codec,
            r.pending() == Seq::<u8>::empty(),
            r.out_buffer_size() == 1024,
    {
        MsgFramed { transport, codec, in_buffer: bytes_mut_new(), out_buffer_size: 1024 }
    }

    /// Gives the transport back.
    pub fn into_inner(self) -> (r: S)
        ensures
            r == self.transport(),
    {
        self.transport
    }

    /// The transport, to be driven by the caller; the rest is left as it was.
    pub fn transport_mut(&mut self) -> (t: &mut S)
        ensures
            *t == old(self).transport(),
            final(self).transport() == *final(t),
            final(self).codec() == old(self).codec(),
            final(self).pending() == old(self).pending(),
            final(self).out_buffer_size() == old(self).out_buffer_size(),
    {
        &mut self.transport
    }

    /// Number of bytes received and not yet decoded.
    pub fn pending_len(&self) -> (n: usize)
        ensures
            n == self.pending().len(),
    {
        bytes_mut_len(&self.in_buffer)
    }

    /// The capacity with which the next outgoing buffer is made.
    pub fn buffer_size_hint(&self) -> (n: usize)
        ensures
            n == self.out_buffer_size(),
    {
        self.out_buffer_size
    }

    /// Appends bytes delivered by the transport to those not yet decoded.
    pub fn receive(&mut self, buffer: &[u8])
        requires
            old(self).pending().len() + buffer@.len() <= isize::MAX,
        ensures
            final(self).pending() == old(self).pending() + buffer@,
            final(self).transport() == old(self).transport(),
            final(self).codec() == old(self).codec(),
            final(self).out_buffer_size() == old(self).out_buffer_size(),
    {
        append_to_bytes_mut(&mut self.in_buffer, buffer);
    }

    /// Decodes the next message out of the bytes received, or gives `Ok(None)`
    /// while no whole message is there.
    pub fn decode_next(&mut self) -> (r: Result<Option<Bytes>, CodecError>)
        requires
            T::decode_safe(old(self).codec()@, old(self).pending()),
        ensures
            final(self).codec()@ == T::spec_decode(old(self).codec()@, old(self).pending()).0,
            final(self).pending() == T::spec_decode(old(self).codec()@, old(self).pending()).1,
            decoded_view(r) == T::spec_decode(old(self).codec()@, old(self).pending()).2,
            final(self).transport() == old(self).transport(),
            final(self).out_buffer_size() == old(self).out_buffer_size(),
    {
        self.codec.decode(&mut self.in_buffer)
    }

    /// Encodes `item` into a fresh buffer to hand to the transport, and moves
    /// the size of the next buffer halfway towards the size of this encoding.
    pub fn prepare_send(&mut self, item: Bytes) -> (r: Result<Bytes, CodecError>)
        requires
            T::encode_safe(old(self).codec()@, 0, bytes_view(item)),
            old(self).out_buffer_size() <= isize::MAX,
        ensures
            final(self).codec()@ == T::spec_encode(old(self).codec()@, bytes_view(item)).0,
            final(self).transport() == old(self).transport(),
            final(self).pending() == old(self).pending(),
            match T::spec_encode(old(self).codec()@, bytes_view(item)).1 {
                Ok(b) => r matches Ok(out) && bytes_view(out) == b && final(self).out_buffer_size()
                    == (old(self).out_buffer_size() + b.len()) / 2,
                Err(e) => r == Err::<Bytes, CodecError>(e) && final(self).out_buffer_size() == old(
                    self,
                ).out_buffer_size(),
            },
    {
        let mut buffer = bytes_mut_with_capacity(self.out_buffer_size);
        self.codec.encode(item, &mut buffer)?;
        let n = bytes_mut_len(&buffer);
        self.out_buffer_size = (self.out_buffer_size + n) / 2;
        Ok(bytes_mut_freeze(buffer))
    }

    /// Decodes the message back out of an encoded buffer that the transport
    /// did not take.
    pub fn reclaim(&mut self, buffer: &mut BytesMut) -> (r: Result<Option<Bytes>, CodecError>)
        requires
            T::decode_safe(old(self).codec()@, bytes_mut_view(*old(buffer))),
        ensures
            final(self).codec()@ == T::spec_decode(old(self).codec()@, bytes_mut_view(*old(buffer))).0,
            bytes_mut_view(*final(buffer)) == T::spec_decode(
                old(self).codec()@,
                bytes_mut_view(*old(buffer)),
            ).1,
            decoded_view(r) == T::spec_decode(old(self).codec()@, bytes_mut_view(*old(buffer))).2,
            final(self).transport() == old(self).transport(),
            final(self).pending() == old(self).pending(),
            final(self).out_buffer_size() == old(self).out_buffer_size(),
    {
        self.codec.decode(buffer)
    }
}

impl<S> MsgFramed<S, LengthPrefixed> {
    /// Whether decoding the bytes received stays clear of the inputs on which
    /// the codec panics.
    pub fn can_decode_next(&self) -> (b: bool)
        ensures
            b == self.codec().decode_safe(self.pending()),
    {
        self.codec.can_decode(&self.in_buffer)
    }

    /// Whether encoding `item` for sending stays clear of the inputs on which
    /// the codec panics.
    pub fn can_prepare_send(&self, item: &Bytes) -> (b: bool)
        ensures
            b == LengthPrefixed::encode_safe(self.codec()@, 0, bytes_view(*item)),
    {
        let empty = bytes_mut_new();
        self.codec.can_encode(&empty, item)
    }
}

} // verus!
