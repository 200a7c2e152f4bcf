//! The length-prefixed codec: a message framed as a length prefix, the
//! message's bytes and an optional suffix.

use vstd::prelude::*;

use bytes::{Bytes, BytesMut};

use crate::buffer::{
    append_to_bytes_mut, bytes_as_slice, bytes_len, bytes_mut_as_slice, bytes_mut_freeze,
    bytes_mut_len, bytes_mut_split_off, bytes_mut_split_to, bytes_mut_view,
    bytes_view, get_u32_be, spec_be_u32,
};
use crate::error::CodecError;
use crate::lpm::spec_lpm_line_frame;
use crate::read::lemma_be_roundtrip;
use crate::varint::{
    decode_varint, encode_varint, encoded_varint_len, lemma_decode_encode_varint,
    lemma_decode_encode_varint_prefix, spec_decode_varint, spec_encode_varint, widen,
};
use crate::write::{be_bytes, spec_be_bytes, spec_lpm_frame, spec_vpm_frame};

verus! {

/// How the length of a message is written in front of it.
#[derive(Copy, Clone, Debug, PartialEq, Eq, Structural)]
pub enum Prefix {
    /// An unsigned LEB128 varint.
    VarInt,
    /// Four bytes, big-endian.
    BigEndianU32,
}

/// What follows the bytes of a message; it is counted in the length prefix.
#[derive(Copy, Clone, Debug, PartialEq, Eq, Structural)]
pub enum Suffix {
    /// Nothing.
    Empty,
    /// A single `'\n'`.
    NewLine,
}

/// A codec that frames each message with a length prefix and a suffix.
#[derive(Copy, Clone, Debug, PartialEq, Eq, Structural)]
pub struct LengthPrefixed(pub Prefix, pub Suffix);

/// A decoded message as the executable code returns it, seen as its bytes.
pub open spec fn decoded_view(r: Result<Option<Bytes>, CodecError>) -> Result<
    Option<Seq<u8>>,
    CodecError,
> {
    match r {
        Ok(Some(b)) => Ok(Some(bytes_view(b))),
        Ok(None) => Ok(None),
        Err(e) => Err(e),
    }
}

/// A codec between messages and the bytes of a stream. Its state, seen through
/// its view, determines what each call does.
pub trait Codec: View + Sized {
    /// What decoding `src` in state `state` gives: the next state, what is left
    /// of `src`, and the message taken off its front, if a whole one is there.
    spec fn spec_decode(state: Self::V, src: Seq<u8>) -> (Self::V, Seq<u8>, Result<
        Option<Seq<u8>>,
        CodecError,
    >);

    /// The inputs on which decoding does not panic.
    spec fn decode_safe(state: Self::V, src: Seq<u8>) -> bool;

    /// What encoding `item` in state `state` gives: the next state, and the
    /// bytes appended to the destination.
    spec fn spec_encode(state: Self::V, item: Seq<u8>) -> (Self::V, Result<Seq<u8>, CodecError>);

    /// The inputs on which encoding into a destination holding `dst_len`
    /// bytes does not panic.
    spec fn encode_safe(state: Self::V, dst_len: nat, item: Seq<u8>) -> bool;

    /// Takes one message off the front of `src`, or gives `Ok(None)` while no
    /// whole message is there.
    fn decode(&mut self, src: &mut BytesMut) -> (r: Result<Option<Bytes>, CodecError>)
        requires
            Self::decode_safe(old(self)@, bytes_mut_view(*old(src))),
        ensures
            final(self)@ == Self::spec_decode(old(self)@, bytes_mut_view(*old(src))).0,
            bytes_mut_view(*final(src)) == Self::spec_decode(old(self)@, bytes_mut_view(*old(src))).1,
            decoded_view(r) == Self::spec_decode(old(self)@, bytes_mut_view(*old(src))).2,
    ;

    /// Appends the encoding of `item` to `dst`; on an error `dst` is left as
    /// it was.
    fn encode(&mut self, item: Bytes, dst: &mut BytesMut) -> (r: Result<(), CodecError>)
        requires
            Self::encode_safe(old(self)@, bytes_mut_view(*old(dst)).len(), bytes_view(item)),
        ensures
            final(self)@ == Self::spec_encode(old(self)@, bytes_view(item)).0,
            match Self::spec_encode(old(self)@, bytes_view(item)).1 {
                Ok(b) => r is Ok && bytes_mut_view(*final(dst)) == bytes_mut_view(*old(dst)) + b
                    && bytes_mut_view(*final(dst)).len() <= isize::MAX,
                Err(e) => r == Err::<(), CodecError>(e) && bytes_mut_view(*final(dst))
                    == bytes_mut_view(*old(dst)),
            },
    ;
}

/// In state `state`, encoding `item` succeeds, and decoding what it wrote
/// followed by `rest`, in the state encoding left, is safe, gives `item` back,
/// leaves `rest`, and keeps that state.
pub open spec fn reversible_at<C: Codec>(state: C::V, item: Seq<u8>, rest: Seq<u8>) -> bool {
    let (s1, r) = C::spec_encode(state, item);
    &&& r is Ok
    &&& C::decode_safe(s1, r->Ok_0 + rest)
    &&& C::spec_decode(s1, r->Ok_0 + rest) == (s1, rest, Ok::<Option<Seq<u8>>, CodecError>(
        Some(item),
    ))
}

/// In state `state`, decoding no bytes is safe, gives nothing, and changes
/// nothing.
pub open spec fn idle_on_empty<C: Codec>(state: C::V) -> bool {
    &&& C::decode_safe(state, Seq::<u8>::empty())
    &&& C::spec_decode(state, Seq::<u8>::empty()) == (
        state,
        Seq::<u8>::empty(),
        Ok::<Option<Seq<u8>>, CodecError>(None),
    )
}

impl Prefix {
    /// What reading a length prefix from the front of `s` gives: the length and
    /// the number of bytes of the prefix, `Ok(None)` while the prefix is
    /// incomplete.
    pub open spec fn spec_decode(self, s: Seq<u8>) -> Result<Option<(usize, nat)>, CodecError> {
        match self {
            Prefix::VarInt => spec_decode_varint(s),
            Prefix::BigEndianU32 => if s.len() >= 4 {
                Ok(Some((spec_be_u32(s[0], s[1], s[2], s[3]) as usize, 4)))
            } else {
                Ok(None)
            },
        }
    }

    /// The bytes of the prefix for a length `len`; a big-endian prefix holds
    /// the length truncated to 32 bits.
    pub open spec fn spec_encode(self, len: nat) -> Seq<u8> {
        match self {
            Prefix::VarInt => spec_encode_varint(len),
            Prefix::BigEndianU32 => spec_be_bytes(len as u32),
        }
    }

    /// Reads a length prefix from the front of `src`: the length and the
    /// number of bytes the prefix takes.
    pub fn decode(self, src: &[u8]) -> (r: Result<Option<(usize, usize)>, CodecError>)
        ensures
            widen(r) == self.spec_decode(src@),
    {
        match self {
            Prefix::VarInt => decode_varint(src),
            Prefix::BigEndianU32 => {
                if src.len() >= 4 {
                    let v = get_u32_be(src);
                    Ok(Some((v as usize, 4)))
                } else {
                    Ok(None)
                }
            },
        }
    }

    /// Appends the prefix for a length `len` to `dst`.
    pub fn encode(self, len: usize, dst: &mut BytesMut) -> (r: Result<(), CodecError>)
        requires
            bytes_mut_view(*old(dst)).len() + self.spec_encode(len as nat).len() <= isize::MAX,
        ensures
            r is Ok,
            bytes_mut_view(*final(dst)) == bytes_mut_view(*old(dst)) + self.spec_encode(
                len as nat,
            ),
    {
        match self {
            Prefix::VarInt => {
                let bytes = encode_varint(len);
                append_to_bytes_mut(dst, bytes.as_slice());
            },
            Prefix::BigEndianU32 => {
                let bytes = be_bytes(len as u32);
                append_to_bytes_mut(dst, bytes.as_slice());
            },
        }
        Ok(())
    }

    /// Number of bytes of the prefix for a length `len`.
    pub fn encoded_len(self, len: usize) -> (n: usize)
        ensures
            n == self.spec_encode(len as nat).len(),
    {
        match self {
            Prefix::VarInt => encoded_varint_len(len),
            Prefix::BigEndianU32 => 4,
        }
    }
}

impl Suffix {
    /// Number of bytes of the suffix.
    pub open spec fn spec_len(self) -> nat {
        match self {
            Suffix::Empty => 0,
            Suffix::NewLine => 1,
        }
    }

    /// The bytes of the suffix.
    pub open spec fn spec_bytes(self) -> Seq<u8> {
        match self {
            Suffix::Empty => Seq::<u8>::empty(),
            Suffix::NewLine => seq![10u8],
        }
    }

    /// Whether a framed message (suffix included) ends as the suffix requires.
    pub open spec fn spec_validate(self, msg: Seq<u8>) -> Result<(), CodecError> {
        match self {
            Suffix::Empty => Ok(()),
            Suffix::NewLine => if msg.last() == 10u8 {
                Ok(())
            } else {
                Err(CodecError::MissingNewline)
            },
        }
    }

    /// Number of bytes of the suffix.
    pub fn len(self) -> (n: usize)
        ensures
            n == self.spec_len(),
    {
        match self {
            Suffix::Empty => 0,
            Suffix::NewLine => 1,
        }
    }

    /// Checks that a framed message ends with the suffix; a newline suffix is
    /// checked on a non-empty message.
    pub fn validate(self, src: &[u8]) -> (r: Result<(), CodecError>)
        requires
            self == Suffix::NewLine ==> src@.len() > 0,
        ensures
            r == self.spec_validate(src@),
    {
        match self {
            Suffix::Empty => Ok(()),
            Suffix::NewLine => {
                if src[src.len() - 1] == 10u8 {
                    Ok(())
                } else {
                    Err(CodecError::MissingNewline)
                }
            },
        }
    }

    /// Appends the suffix to `dst`.
    pub fn encode(self, dst: &mut BytesMut)
        requires
            bytes_mut_view(*old(dst)).len() + self.spec_len() <= isize::MAX,
        ensures
            bytes_mut_view(*final(dst)) == bytes_mut_view(*old(dst)) + self.spec_bytes(),
    {
        match self {
            Suffix::Empty => {
                assert(bytes_mut_view(*dst) + self.spec_bytes() =~= bytes_mut_view(*dst));
            },
            Suffix::NewLine => {
                let nl = [10u8];
                assert(nl@ =~= seq![10u8]);
                append_to_bytes_mut(dst, nl.as_slice());
            },
        }
    }
}

impl LengthPrefixed {
    /// The frame of a message: the prefix holding the length of the message
    /// and suffix, the message, then the suffix.
    pub open spec fn spec_frame(self, item: Seq<u8>) -> Seq<u8> {
        self.0.spec_encode(item.len() + self.1.spec_len()) + item + self.1.spec_bytes()
    }

    /// What decoding the front of `s` gives, and what is left of `s` after it.
    /// A complete frame is taken off the front even when its suffix is wrong.
    pub open spec fn spec_decode(self, s: Seq<u8>) -> (Result<Option<Seq<u8>>, CodecError>, Seq<
        u8,
    >) {
        match self.0.spec_decode(s) {
            Err(e) => (Err(e), s),
            Ok(None) => (Ok(None), s),
            Ok(Some((len, n))) => if len + n <= s.len() {
                let msg = s.subrange(n as int, n + len);
                let rest = s.skip(n + len);
                match self.1.spec_validate(msg) {
                    Err(e) => (Err(e), rest),
                    Ok(()) => (Ok(Some(msg.take(len - self.1.spec_len()))), rest),
                }
            } else {
                (Ok(None), s)
            },
        }
    }

    /// The inputs on which decoding does not panic: the length and the prefix
    /// add up within `usize`, and a complete frame with a newline suffix is not
    /// empty.
    pub open spec fn decode_safe(self, s: Seq<u8>) -> bool {
        match self.0.spec_decode(s) {
            Ok(Some((len, n))) => len + n <= usize::MAX && (len + n <= s.len() && self.1
                == Suffix::NewLine ==> len >= 1),
            _ => true,
        }
    }

    /// Whether appending the frame of `item` to `dst` stays clear of the
    /// inputs on which encoding panics: the buffer stays within `isize::MAX`.
    pub fn can_encode(&self, dst: &BytesMut, item: &Bytes) -> (b: bool)
        ensures
            b == (bytes_mut_view(*dst).len() + self.spec_frame(bytes_view(*item)).len()
                <= isize::MAX),
    {
        let data_len = match bytes_len(item).checked_add(self.1.len()) {
            Some(n) => n,
            None => {
                return false;
            },
        };
        let prefix_len = self.0.encoded_len(data_len);
        match data_len.checked_add(prefix_len) {
            Some(frame_len) => match frame_len.checked_add(bytes_mut_len(dst)) {
                Some(total) => total <= isize::MAX as usize,
                None => false,
            },
            None => false,
        }
    }

    /// Whether decoding `src` stays clear of the inputs on which it panics.
    pub fn can_decode(&self, src: &BytesMut) -> (b: bool)
        ensures
            b == self.decode_safe(bytes_mut_view(*src)),
    {
        match self.0.decode(bytes_mut_as_slice(src)) {
            Ok(Some((len, n))) => match len.checked_add(n) {
                Some(total) => {
                    let complete = total <= bytes_mut_len(src);
                    match self.1 {
                        Suffix::NewLine => !complete || len >= 1,
                        Suffix::Empty => true,
                    }
                },
                None => false,
            },
            _ => true,
        }
    }
}

impl View for LengthPrefixed {
    type V = LengthPrefixed;

    open spec fn view(&self) -> LengthPrefixed {
        *self
    }
}

impl Codec for LengthPrefixed {
    open spec fn spec_decode(state: LengthPrefixed, src: Seq<u8>) -> (LengthPrefixed, Seq<u8>, Result<
        Option<Seq<u8>>,
        CodecError,
    >) {
        (state, state.spec_decode(src).1, state.spec_decode(src).0)
    }

    open spec fn decode_safe(state: LengthPrefixed, src: Seq<u8>) -> bool {
        state.decode_safe(src)
    }

    open spec fn spec_encode(state: LengthPrefixed, item: Seq<u8>) -> (LengthPrefixed, Result<
        Seq<u8>,
        CodecError,
    >) {
        (state, Ok(state.spec_frame(item)))
    }

    open spec fn encode_safe(state: LengthPrefixed, dst_len: nat, item: Seq<u8>) -> bool {
        dst_len + state.spec_frame(item).len() <= isize::MAX
    }

    /// Appends the frame of `item` to `dst`.
    fn encode(&mut self, item: Bytes, dst: &mut BytesMut) -> (r: Result<(), CodecError>) {
        let ghost d0 = bytes_mut_view(*dst);
        let ghost m = bytes_view(item);
        let data_len = bytes_len(&item) + self.1.len();
        self.0.encode(data_len, dst)?;
        append_to_bytes_mut(dst, bytes_as_slice(&item));
        self.1.encode(dst);
        assert(bytes_mut_view(*dst) =~= d0 + self.spec_frame(m));
        Ok(())
    }

    /// Takes one frame off the front of `src` and returns its message, or
    /// `Ok(None)` while no complete frame is there.
    fn decode(&mut self, src: &mut BytesMut) -> (r: Result<Option<Bytes>, CodecError>) {
        let ghost s = bytes_mut_view(*src);
        match self.0.decode(bytes_mut_as_slice(src)) {
            Err(e) => Err(e),
            Ok(None) => Ok(None),
            Ok(Some((len, len_len))) => {
                if len + len_len <= bytes_mut_len(src) {
                    let _ = bytes_mut_split_to(src, len_len);
                    let mut msg = bytes_mut_split_to(src, len);
                    proof {
                        assert(bytes_mut_view(msg) =~= s.subrange(
                            len_len as int,
                            len_len + len,
                        ));
                        assert(bytes_mut_view(*src) =~= s.skip(len_len + len));
                    }
                    match self.1.validate(bytes_mut_as_slice(&msg)) {
                        Err(e) => {
                            return Err(e);
                        },
                        Ok(()) => {},
                    }
                    let _ = bytes_mut_split_off(&mut msg, len - self.1.len());
                    Ok(Some(bytes_mut_freeze(msg)))
                } else {
                    Ok(None)
                }
            },
        }
    }
}

/// Reading the prefix written for a length `len`, followed by any bytes, gives
/// `len` and the length of the prefix back.
pub proof fn lemma_prefix_roundtrip(p: Prefix, len: nat, rest: Seq<u8>)
    requires
        len <= usize::MAX,
        p == Prefix::BigEndianU32 ==> len <= u32::MAX,
    ensures
        p.spec_decode(p.spec_encode(len) + rest) == Ok::<Option<(usize, nat)>, CodecError>(
            Some((len as usize, p.spec_encode(len).len())),
        ),
{
    let e = p.spec_encode(len);
    match p {
        Prefix::VarInt => {
            lemma_decode_encode_varint(len as usize, rest);
        },
        Prefix::BigEndianU32 => {
            lemma_be_roundtrip(len as u32);
            let s = e + rest;
            assert(s[0] == e[0] && s[1] == e[1] && s[2] == e[2] && s[3] == e[3]);
        },
    }
}

/// Reading a prefix cut short gives `Ok(None)`.
pub proof fn lemma_prefix_partial(p: Prefix, len: nat, k: int)
    requires
        len <= usize::MAX,
        0 <= k < p.spec_encode(len).len(),
    ensures
        p.spec_decode(p.spec_encode(len).take(k)) == Ok::<Option<(usize, nat)>, CodecError>(None),
{
    match p {
        Prefix::VarInt => {
            lemma_decode_encode_varint_prefix(len as usize, k);
        },
        Prefix::BigEndianU32 => {},
    }
}

/// Decoding the frame of a message, followed by any bytes, gives the message
/// back, takes exactly the frame off the front, and stays clear of the inputs
/// on which decoding panics.
pub proof fn lemma_decode_frame(c: LengthPrefixed, item: Seq<u8>, rest: Seq<u8>)
    requires
        c.spec_frame(item).len() <= usize::MAX,
        c.0 == Prefix::BigEndianU32 ==> item.len() + c.1.spec_len() <= u32::MAX,
    ensures
        c.decode_safe(c.spec_frame(item) + rest),
        c.spec_decode(c.spec_frame(item) + rest) == (Ok::<Option<Seq<u8>>, CodecError>(Some(item)), rest),
{
    let len = item.len() + c.1.spec_len();
    let e = c.0.spec_encode(len);
    let body = item + c.1.spec_bytes();
    let s = c.spec_frame(item) + rest;
    assert(s =~= e + (body + rest));
    lemma_prefix_roundtrip(c.0, len, body + rest);
    let n = e.len();
    assert(s.subrange(n as int, (n + len) as int) =~= body);
    assert(s.skip((n + len) as int) =~= rest);
    assert(body.take(len - c.1.spec_len()) =~= item);
    if c.1 == Suffix::NewLine {
        assert(body.last() == 10u8);
    }
}

/// A newline suffix is checked on the last byte of the frame alone: a complete
/// frame whose last byte is not `'\n'` is refused with `MissingNewline` and
/// taken off the input, whatever bytes it holds before that; one whose last
/// byte is `'\n'` gives every byte before it.
pub proof fn lemma_newline_suffix_checked(p: Prefix, msg: Seq<u8>, rest: Seq<u8>)
    requires
        msg.len() > 0,
        p.spec_encode(msg.len()).len() + msg.len() <= usize::MAX,
        p == Prefix::BigEndianU32 ==> msg.len() <= u32::MAX,
    ensures
        (Suffix::NewLine.spec_validate(msg) is Ok) <==> msg.last() == 10u8,
        msg.last() != 10u8 ==> LengthPrefixed(p, Suffix::NewLine).spec_decode(
            p.spec_encode(msg.len()) + msg + rest,
        ) == (Err::<Option<Seq<u8>>, CodecError>(CodecError::MissingNewline), rest),
        msg.last() == 10u8 ==> LengthPrefixed(p, Suffix::NewLine).spec_decode(
            p.spec_encode(msg.len()) + msg + rest,
        ) == (Ok::<Option<Seq<u8>>, CodecError>(Some(msg.drop_last())), rest),
{
    let e = p.spec_encode(msg.len());
    let s = e + msg + rest;
    assert(s =~= e + (msg + rest));
    lemma_prefix_roundtrip(p, msg.len(), msg + rest);
    let n = e.len();
    assert(s.subrange(n as int, (n + msg.len()) as int) =~= msg);
    assert(s.skip((n + msg.len()) as int) =~= rest);
    assert(msg.take(msg.len() - 1) =~= msg.drop_last());
}

/// A frame cut short anywhere decodes to `Ok(None)`, leaves the bytes as they
/// were, and stays clear of the inputs on which decoding panics.
pub proof fn lemma_decode_partial_frame(c: LengthPrefixed, item: Seq<u8>, k: int)
    requires
        c.spec_frame(item).len() <= usize::MAX,
        c.0 == Prefix::BigEndianU32 ==> item.len() + c.1.spec_len() <= u32::MAX,
        0 <= k < c.spec_frame(item).len(),
    ensures
        c.decode_safe(c.spec_frame(item).take(k)),
        c.spec_decode(c.spec_frame(item).take(k)) == (Ok::<Option<Seq<u8>>, CodecError>(None), c.spec_frame(item).take(k)),
{
    let len = item.len() + c.1.spec_len();
    let e = c.0.spec_encode(len);
    let body = item + c.1.spec_bytes();
    let f = c.spec_frame(item);
    assert(f =~= e + body);
    if k < e.len() {
        assert(f.take(k) =~= e.take(k));
        lemma_prefix_partial(c.0, len, k);
    } else {
        assert(f.take(k) =~= e + body.take(k - e.len()));
        lemma_prefix_roundtrip(c.0, len, body.take(k - e.len()));
    }
}

/// A length-prefixed codec is reversible on every message whose frame fits,
/// and decoding no bytes leaves it idle.
pub proof fn lemma_length_prefixed_reversible(c: LengthPrefixed, item: Seq<u8>, rest: Seq<u8>)
    requires
        c.spec_frame(item).len() <= usize::MAX,
        c.0 == Prefix::BigEndianU32 ==> item.len() + c.1.spec_len() <= u32::MAX,
    ensures
        reversible_at::<LengthPrefixed>(c, item, rest),
        idle_on_empty::<LengthPrefixed>(c),
{
    lemma_decode_frame(c, item, rest);
    assert(c.0.spec_decode(Seq::<u8>::empty()) == Ok::<Option<(usize, nat)>, CodecError>(None));
}

/// What `write::WriteVpm` writes is the frame of the varint codec without a
/// suffix.
pub proof fn lemma_vpm_frame_is_codec_frame(msg: Seq<u8>)
    ensures
        spec_vpm_frame(msg) == LengthPrefixed(Prefix::VarInt, Suffix::Empty).spec_frame(msg),
{
    assert(spec_vpm_frame(msg) =~= LengthPrefixed(Prefix::VarInt, Suffix::Empty).spec_frame(msg));
}

/// What `write::WriteLpm` writes is the frame of the big-endian codec without
/// a suffix.
pub proof fn lemma_lpm_frame_is_codec_frame(msg: Seq<u8>)
    ensures
        spec_lpm_frame(msg) == LengthPrefixed(Prefix::BigEndianU32, Suffix::Empty).spec_frame(msg),
{
    assert(spec_lpm_frame(msg) =~= LengthPrefixed(Prefix::BigEndianU32, Suffix::Empty).spec_frame(
        msg,
    ));
}

/// What `lpm::WriteLpm` writes is the frame of the varint codec with a
/// newline suffix.
pub proof fn lemma_lpm_line_frame_is_codec_frame(msg: Seq<u8>)
    ensures
        spec_lpm_line_frame(msg) == LengthPrefixed(Prefix::VarInt, Suffix::NewLine).spec_frame(msg),
{
    assert(spec_lpm_line_frame(msg) =~= LengthPrefixed(Prefix::VarInt, Suffix::NewLine).spec_frame(
        msg,
    ));
}

} // verus!
