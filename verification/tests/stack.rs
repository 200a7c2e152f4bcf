use bytes::{Bytes, BytesMut};
use msgio::stack::Stacked;
use msgio::{Codec, CodecError, LengthPrefixed, Prefix, Suffix};

fn stacked() -> Stacked<LengthPrefixed, LengthPrefixed> {
    Stacked::new(
        LengthPrefixed(Prefix::VarInt, Suffix::Empty),
        LengthPrefixed(Prefix::BigEndianU32, Suffix::Empty),
    )
}

#[test]
fn stacked_encode_nests_frames() {
    let mut codec = stacked();
    let mut dst = BytesMut::new();
    codec.encode(Bytes::from(&b"hi"[..]), &mut dst).unwrap();
    assert_eq!(&dst[..], &[0, 0, 0, 3, 2, b'h', b'i']);
    codec.encode(Bytes::from(&b"x"[..]), &mut dst).unwrap();
    assert_eq!(&dst[..], &[0, 0, 0, 3, 2, b'h', b'i', 0, 0, 0, 2, 1, b'x']);
}

#[test]
fn stacked_roundtrip() {
    let mut codec = stacked();
    let mut dst = BytesMut::new();
    codec.encode(Bytes::from(&b"hello"[..]), &mut dst).unwrap();
    dst.extend_from_slice(b"more");
    let msg = codec.decode(&mut dst).unwrap().unwrap();
    assert_eq!(&msg[..], b"hello");
    assert_eq!(&dst[..], b"more");
    let (upper, lower) = codec.split();
    assert_eq!(upper, LengthPrefixed(Prefix::VarInt, Suffix::Empty));
    assert_eq!(lower, LengthPrefixed(Prefix::BigEndianU32, Suffix::Empty));
}

#[test]
fn stacked_decodes_buffered_messages_first() {
    let mut codec = stacked();
    let mut src = BytesMut::from(&[0u8, 0, 0, 5, 2, b'h', b'i', 1, b'x', 0, 0, 0, 2, 1, b'y'][..]);
    assert_eq!(&codec.decode(&mut src).unwrap().unwrap()[..], b"hi");
    assert_eq!(&src[..], &[0, 0, 0, 2, 1, b'y']);
    assert_eq!(&codec.decode(&mut src).unwrap().unwrap()[..], b"x");
    assert_eq!(&src[..], &[0, 0, 0, 2, 1, b'y']);
    assert_eq!(&codec.decode(&mut src).unwrap().unwrap()[..], b"y");
    assert!(src.is_empty());
    assert_eq!(codec.decode(&mut src), Ok(None));
}

#[test]
fn stacked_partial_upper_frame_waits() {
    let mut codec = stacked();
    let mut src = BytesMut::from(&[0u8, 0, 0, 2, 3, b'a', 0, 0, 0, 2, b'b', b'c'][..]);
    assert_eq!(codec.decode(&mut src), Ok(None));
    assert_eq!(&src[..], &[0, 0, 0, 2, b'b', b'c']);
    assert_eq!(&codec.decode(&mut src).unwrap().unwrap()[..], b"abc");
}

#[test]
fn stacked_lower_error_passes_through() {
    let mut codec = Stacked::new(
        LengthPrefixed(Prefix::VarInt, Suffix::Empty),
        LengthPrefixed(Prefix::VarInt, Suffix::NewLine),
    );
    let mut src = BytesMut::from(&[2u8, 1, b'a'][..]);
    assert_eq!(codec.decode(&mut src), Err(CodecError::MissingNewline));
    assert!(src.is_empty());
}
