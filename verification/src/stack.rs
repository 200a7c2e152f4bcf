//! A codec stacked on another: the lower codec frames the stream, and the
//! upper codec decodes its messages out of what the lower one delivers.

use vstd::prelude::*;

use bytes::{Bytes, BytesMut};

use crate::buffer::{
    append_to_bytes_mut, bytes_as_slice, bytes_mut_freeze, bytes_mut_new, bytes_mut_take,
    bytes_mut_view,
};
use crate::codec::{
    idle_on_empty, lemma_decode_frame, lemma_decode_partial_frame, lemma_length_prefixed_reversible,
    reversible_at, Codec, LengthPrefixed, Prefix,
};
use crate::error::CodecError;

verus! {

/// Two codecs stacked: messages of the upper codec travel inside messages of
/// the lower codec.
pub struct Stacked<T, S> {
    upper: T,
    lower: S,
    decode_buffer: BytesMut,
    encode_buffer: BytesMut,
}

/// The state of a stacked codec: the states of both codecs, the bytes that
/// the lower codec delivered and the upper one has not used yet, and the bytes
/// encoded by the upper codec and not yet handed to the lower one.
pub struct StackedView<A, B> {
    pub upper: A,
    pub lower: B,
    pub decode_buffer: Seq<u8>,
    pub encode_buffer: Seq<u8>,
}

impl<T: Codec, S: Codec> View for Stacked<T, S> {
    type V = StackedView<T::V, S::V>;

    closed spec fn view(&self) -> StackedView<T::V, S::V> {
        StackedView {
            upper: self.upper@,
            lower: self.lower@,
            decode_buffer: bytes_mut_view(self.decode_buffer),
            encode_buffer: bytes_mut_view(self.encode_buffer),
        }
    }
}

impl<T: Codec, S: Codec> Stacked<T, S> {
    /// Stacks `upper` on `lower`, with nothing buffered.
    pub fn new(upper: T, lower: S) -> (r: Stacked<T, S>)
        ensures
            r@.upper == upper@,
            r@.lower == lower@,
            r@.decode_buffer == Seq::<u8>::empty(),
            r@.encode_buffer == Seq::<u8>::empty(),
    {
        Stacked { upper, lower, decode_buffer: bytes_mut_new(), encode_buffer: bytes_mut_new() }
    }

    /// Takes the two codecs apart again; nothing may be left undecoded.
    pub fn split(self) -> (r: (T, S))
        requires
            self@.decode_buffer.len() == 0,
        ensures
            r.0@ == self@.upper,
            r.1@ == self@.lower,
    {
        (self.upper, self.lower)
    }
}

impl<T: Codec, S: Codec> Codec for Stacked<T, S> {
    /// The upper codec first decodes what is already buffered; only when that
    /// gives nothing does the lower codec decode `src`, and a message it gives
    /// is appended to the buffer and offered to the upper codec.
    open spec fn spec_decode(st: StackedView<T::V, S::V>, src: Seq<u8>) -> (StackedView<
        T::V,
        S::V,
    >, Seq<u8>, Result<Option<Seq<u8>>, CodecError>) {
        let (u1, b1, r1) = T::spec_decode(st.upper, st.decode_buffer);
        let st1 = StackedView {
            upper: u1,
            lower: st.lower,
            decode_buffer: b1,
            encode_buffer: st.encode_buffer,
        };
        match r1 {
            Ok(None) => {
                let (l1, src1, r2) = S::spec_decode(st.lower, src);
                let st2 = StackedView {
                    upper: u1,
                    lower: l1,
                    decode_buffer: b1,
                    encode_buffer: st.encode_buffer,
                };
                match r2 {
                    Ok(Some(bytes)) => {
                        let (u2, b2, r3) = T::spec_decode(u1, b1 + bytes);
                        (
                            StackedView {
                                upper: u2,
                                lower: l1,
                                decode_buffer: b2,
                                encode_buffer: st.encode_buffer,
                            },
                            src1,
                            r3,
                        )
                    },
                    Ok(None) => (st2, src1, Ok(None)),
                    Err(e) => (st2, src1, Err(e)),
                }
            },
            _ => (st1, src, r1),
        }
    }

    open spec fn decode_safe(st: StackedView<T::V, S::V>, src: Seq<u8>) -> bool {
        let (u1, b1, r1) = T::spec_decode(st.upper, st.decode_buffer);
        &&& T::decode_safe(st.upper, st.decode_buffer)
        &&& r1 is Ok && r1->Ok_0 is None ==> {
            &&& S::decode_safe(st.lower, src)
            &&& S::spec_decode(st.lower, src).2 matches Ok(Some(bytes)) ==> {
                &&& b1.len() + bytes.len() <= isize::MAX
                &&& T::decode_safe(u1, b1 + bytes)
            }
        }
    }

    /// The upper codec encodes into the encode buffer; then the whole buffer
    /// is taken and encoded by the lower codec into the destination.
    open spec fn spec_encode(st: StackedView<T::V, S::V>, item: Seq<u8>) -> (StackedView<
        T::V,
        S::V,
    >, Result<Seq<u8>, CodecError>) {
        let (u1, r1) = T::spec_encode(st.upper, item);
        match r1 {
            Ok(b) => {
                let (l1, r2) = S::spec_encode(st.lower, st.encode_buffer + b);
                (
                    StackedView {
                        upper: u1,
                        lower: l1,
                        decode_buffer: st.decode_buffer,
                        encode_buffer: Seq::<u8>::empty(),
                    },
                    r2,
                )
            },
            Err(e) => (
                StackedView {
                    upper: u1,
                    lower: st.lower,
                    decode_buffer: st.decode_buffer,
                    encode_buffer: st.encode_buffer,
                },
                Err(e),
            ),
        }
    }

    open spec fn encode_safe(st: StackedView<T::V, S::V>, dst_len: nat, item: Seq<u8>) -> bool {
        &&& T::encode_safe(st.upper, st.encode_buffer.len(), item)
        &&& T::spec_encode(st.upper, item).1 matches Ok(b) ==> S::encode_safe(
            st.lower,
            dst_len,
            st.encode_buffer + b,
        )
    }

    fn decode(&mut self, src: &mut BytesMut) -> (r: Result<Option<Bytes>, CodecError>) {
        match self.upper.decode(&mut self.decode_buffer) {
            Err(e) => Err(e),
            Ok(Some(result)) => Ok(Some(result)),
            Ok(None) => match self.lower.decode(src) {
                Err(e) => Err(e),
                Ok(None) => Ok(None),
                Ok(Some(bytes)) => {
                    append_to_bytes_mut(&mut self.decode_buffer, bytes_as_slice(&bytes));
                    self.upper.decode(&mut self.decode_buffer)
                },
            },
        }
    }

    fn encode(&mut self, item: Bytes, dst: &mut BytesMut) -> (r: Result<(), CodecError>) {
        self.upper.encode(item, &mut self.encode_buffer)?;
        let buffered = bytes_mut_take(&mut self.encode_buffer);
        self.lower.encode(bytes_mut_freeze(buffered), dst)
    }
}

/// Stacking keeps reversibility: with nothing buffered, when the upper codec is
/// reversible on `item` (with nothing after it) and idle after encoding it,
/// and the lower codec is reversible on what the upper one wrote (with `rest`
/// after it), the stacked codec is reversible on `item` with `rest` after it,
/// and encoding is safe whenever both encodings are.
pub proof fn lemma_stacked_reversible<T: Codec, S: Codec>(
    st: StackedView<T::V, S::V>,
    item: Seq<u8>,
    rest: Seq<u8>,
    dst_len: nat,
)
    requires
        st.decode_buffer.len() == 0,
        st.encode_buffer.len() == 0,
        reversible_at::<T>(st.upper, item, Seq::<u8>::empty()),
        idle_on_empty::<T>(T::spec_encode(st.upper, item).0),
        reversible_at::<S>(st.lower, T::spec_encode(st.upper, item).1->Ok_0, rest),
        T::spec_encode(st.upper, item).1->Ok_0.len() <= isize::MAX,
    ensures
        reversible_at::<Stacked<T, S>>(st, item, rest),
        T::encode_safe(st.upper, 0, item) && S::encode_safe(
            st.lower,
            dst_len,
            T::spec_encode(st.upper, item).1->Ok_0,
        ) ==> Stacked::<T, S>::encode_safe(st, dst_len, item),
{
    let empty = Seq::<u8>::empty();
    let (u1, ru) = T::spec_encode(st.upper, item);
    let bu = ru->Ok_0;
    assert(st.encode_buffer + bu =~= bu);
    assert(st.decode_buffer =~= empty);
    assert(empty + bu =~= bu);
    assert(bu + empty =~= bu);
    let (l1, rl) = S::spec_encode(st.lower, bu);
    let bl = rl->Ok_0;
    let st1 = StackedView { upper: u1, lower: l1, decode_buffer: st.decode_buffer, encode_buffer: empty };
    assert(Stacked::<T, S>::spec_encode(st, item) == (st1, rl));
    assert(T::spec_decode(u1, st1.decode_buffer) == (u1, empty, Ok::<Option<Seq<u8>>, CodecError>(None)));
    assert(S::spec_decode(l1, bl + rest) == (l1, rest, Ok::<Option<Seq<u8>>, CodecError>(Some(bu))));
    assert(T::spec_decode(u1, empty + bu) == (u1, empty, Ok::<Option<Seq<u8>>, CodecError>(Some(item))));
    assert(Stacked::<T, S>::spec_decode(st1, bl + rest) == (st1, rest, Ok::<Option<Seq<u8>>, CodecError>(Some(item))));
}

/// Over a length-prefixed upper codec, a stacked decode that gives nothing
/// discards nothing: the upper codec is unchanged, and the buffer holds what it
/// held before followed by whatever message the lower codec delivered from
/// `src`, however much of `src` is left.
pub proof fn lemma_stacked_keeps_delivered_bytes<S: Codec>(
    st: StackedView<LengthPrefixed, S::V>,
    src: Seq<u8>,
)
    ensures
        ({
            let (st2, src2, r) = Stacked::<LengthPrefixed, S>::spec_decode(st, src);
            r == Ok::<Option<Seq<u8>>, CodecError>(None) ==> {
                &&& st2.upper == st.upper
                &&& st2.encode_buffer == st.encode_buffer
                &&& match S::spec_decode(st.lower, src).2 {
                    Ok(Some(bytes)) => st2.decode_buffer == st.decode_buffer + bytes,
                    _ => st2.decode_buffer == st.decode_buffer,
                }
            }
        }),
{
}

/// An upper frame split across two lower frames is decoded across two calls:
/// the first call, whatever follows the first lower frame, gives nothing and
/// keeps the first part buffered; the second gives the message and returns
/// the codec to where it started.
#[verifier::rlimit(40)]
pub proof fn lemma_stacked_split_frame(
    upper: LengthPrefixed,
    lower: LengthPrefixed,
    item: Seq<u8>,
    k: int,
    tail: Seq<u8>,
    rest: Seq<u8>,
)
    requires
        0 <= k < upper.spec_frame(item).len(),
        upper.spec_frame(item).len() <= isize::MAX,
        upper.0 == Prefix::BigEndianU32 ==> item.len() + upper.1.spec_len() <= u32::MAX,
        lower.spec_frame(upper.spec_frame(item).take(k)).len() <= usize::MAX,
        lower.spec_frame(upper.spec_frame(item).skip(k)).len() <= usize::MAX,
        lower.0 == Prefix::BigEndianU32 ==> upper.spec_frame(item).len() + lower.1.spec_len()
            <= u32::MAX,
    ensures
        ({
            let f = upper.spec_frame(item);
            let empty = Seq::<u8>::empty();
            let st0 = StackedView {
                upper: upper,
                lower: lower,
                decode_buffer: empty,
                encode_buffer: empty,
            };
            let st1 = StackedView {
                upper: upper,
                lower: lower,
                decode_buffer: f.take(k),
                encode_buffer: empty,
            };
            let first = lower.spec_frame(f.take(k)) + tail;
            let second = lower.spec_frame(f.skip(k)) + rest;
            &&& Stacked::<LengthPrefixed, LengthPrefixed>::decode_safe(st0, first)
            &&& Stacked::<LengthPrefixed, LengthPrefixed>::spec_decode(st0, first) == (
                st1,
                tail,
                Ok::<Option<Seq<u8>>, CodecError>(None),
            )
            &&& Stacked::<LengthPrefixed, LengthPrefixed>::decode_safe(st1, second)
            &&& Stacked::<LengthPrefixed, LengthPrefixed>::spec_decode(st1, second) == (
                st0,
                rest,
                Ok::<Option<Seq<u8>>, CodecError>(Some(item)),
            )
        }),
{
    let f = upper.spec_frame(item);
    let f1 = f.take(k);
    let f2 = f.skip(k);
    let empty = Seq::<u8>::empty();
    let st0 = StackedView { upper: upper, lower: lower, decode_buffer: empty, encode_buffer: empty };
    let st1 = StackedView { upper: upper, lower: lower, decode_buffer: f1, encode_buffer: empty };
    let first = lower.spec_frame(f1) + tail;
    let second = lower.spec_frame(f2) + rest;
    assert(upper.0.spec_decode(empty) == Ok::<Option<(usize, nat)>, CodecError>(None));
    assert(<LengthPrefixed as Codec>::spec_decode(upper, empty) == (upper, empty, Ok::<Option<Seq<u8>>, CodecError>(None)));
    lemma_decode_frame(lower, f1, tail);
    assert(<LengthPrefixed as Codec>::spec_decode(lower, first) == (lower, tail, Ok::<Option<Seq<u8>>, CodecError>(Some(f1))));
    lemma_decode_frame(lower, f2, rest);
    assert(<LengthPrefixed as Codec>::spec_decode(lower, second) == (lower, rest, Ok::<Option<Seq<u8>>, CodecError>(Some(f2))));
    assert(empty + f1 =~= f1);
    lemma_decode_partial_frame(upper, item, k);
    assert(<LengthPrefixed as Codec>::spec_decode(upper, f1) == (upper, f1, Ok::<Option<Seq<u8>>, CodecError>(None)));
    assert(f1 + f2 =~= f);
    assert(f + empty =~= f);
    lemma_decode_frame(upper, item, empty);
    assert(<LengthPrefixed as Codec>::spec_decode(upper, f1 + f2) == (upper, empty, Ok::<Option<Seq<u8>>, CodecError>(Some(item))));
}

/// Two length-prefixed codecs stacked, with nothing buffered, are reversible:
/// decoding what encoding a message wrote, followed by any bytes, gives the
/// message back, takes exactly what was written, and returns to the same state.
pub proof fn lemma_stacked_roundtrip(
    upper: LengthPrefixed,
    lower: LengthPrefixed,
    item: Seq<u8>,
    rest: Seq<u8>,
)
    requires
        lower.spec_frame(upper.spec_frame(item)).len() <= isize::MAX,
        upper.0 == Prefix::BigEndianU32 ==> item.len() + upper.1.spec_len() <= u32::MAX,
        lower.0 == Prefix::BigEndianU32 ==> upper.spec_frame(item).len() + lower.1.spec_len()
            <= u32::MAX,
    ensures
        ({
            let st = StackedView {
                upper: upper,
                lower: lower,
                decode_buffer: Seq::<u8>::empty(),
                encode_buffer: Seq::<u8>::empty(),
            };
            let written = lower.spec_frame(upper.spec_frame(item));
            &&& Stacked::<LengthPrefixed, LengthPrefixed>::encode_safe(st, 0, item)
            &&& Stacked::<LengthPrefixed, LengthPrefixed>::spec_encode(st, item) == (
                st,
                Ok::<Seq<u8>, CodecError>(written),
            )
            &&& Stacked::<LengthPrefixed, LengthPrefixed>::decode_safe(st, written + rest)
            &&& Stacked::<LengthPrefixed, LengthPrefixed>::spec_decode(st, written + rest) == (
                st,
                rest,
                Ok::<Option<Seq<u8>>, CodecError>(Some(item)),
            )
        }),
{
    let empty = Seq::<u8>::empty();
    let uf = upper.spec_frame(item);
    let lf = lower.spec_frame(uf);
    assert(empty + uf =~= uf);
    assert(uf + empty =~= uf);
    let st = StackedView {
        upper: upper,
        lower: lower,
        decode_buffer: empty,
        encode_buffer: empty,
    };
    lemma_length_prefixed_reversible(upper, item, empty);
    lemma_length_prefixed_reversible(lower, uf, rest);
    lemma_stacked_reversible::<LengthPrefixed, LengthPrefixed>(st, item, rest, 0);
}

} // verus!
