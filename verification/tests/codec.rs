use bytes::{Bytes, BytesMut};
use msgio::{Codec, CodecError, LengthPrefixed, Prefix, Suffix};

fn encode(codec: LengthPrefixed, msg: &[u8]) -> Vec<u8> {
    let mut codec = codec;
    let mut dst = BytesMut::new();
    codec.encode(Bytes::from(msg.to_vec()), &mut dst).unwrap();
    dst.to_vec()
}

#[test]
fn prefix_decode_varint() {
    assert_eq!(Prefix::VarInt.decode(&[0xac, 0x02, 1]), Ok(Some((300, 2))));
    assert_eq!(Prefix::VarInt.decode(&[0x80]), Ok(None));
}

#[test]
fn prefix_decode_big_endian() {
    assert_eq!(Prefix::BigEndianU32.decode(&[0, 0, 1, 2, 9]), Ok(Some((258, 4))));
    assert_eq!(Prefix::BigEndianU32.decode(&[0x12, 0x34, 0x56, 0x78]), Ok(Some((0x12345678, 4))));
    assert_eq!(Prefix::BigEndianU32.decode(&[0, 0, 1]), Ok(None));
}

#[test]
fn prefix_encode_and_len() {
    let mut dst = BytesMut::new();
    Prefix::BigEndianU32.encode(258, &mut dst).unwrap();
    assert_eq!(&dst[..], &[0, 0, 1, 2]);
    let mut dst = BytesMut::from(&b"x"[..]);
    Prefix::VarInt.encode(300, &mut dst).unwrap();
    assert_eq!(&dst[..], &[b'x', 0xac, 0x02]);
    assert_eq!(Prefix::VarInt.encoded_len(300), 2);
    assert_eq!(Prefix::VarInt.encoded_len(5), 1);
    assert_eq!(Prefix::BigEndianU32.encoded_len(5), 4);
}

#[test]
fn prefix_encode_big_endian_truncates() {
    if usize::BITS == 64 {
        let mut dst = BytesMut::new();
        let len: u64 = 0x1_0000_0005;
        Prefix::BigEndianU32.encode(len as usize, &mut dst).unwrap();
        assert_eq!(&dst[..], &[0, 0, 0, 5]);
    }
}

#[test]
fn suffix_len_validate_encode() {
    assert_eq!(Suffix::Empty.len(), 0);
    assert_eq!(Suffix::NewLine.len(), 1);
    assert_eq!(Suffix::NewLine.validate(b"abc\n"), Ok(()));
    assert_eq!(Suffix::NewLine.validate(b"abc"), Err(CodecError::MissingNewline));
    assert_eq!(Suffix::Empty.validate(b"abc"), Ok(()));
    let mut dst = BytesMut::new();
    Suffix::NewLine.encode(&mut dst);
    Suffix::Empty.encode(&mut dst);
    assert_eq!(&dst[..], b"\n");
}

#[test]
fn encode_varint_newline_frame() {
    assert_eq!(
        encode(LengthPrefixed(Prefix::VarInt, Suffix::NewLine), b"hello"),
        b"\x06hello\n".to_vec()
    );
}

#[test]
fn encode_big_endian_frame() {
    assert_eq!(
        encode(LengthPrefixed(Prefix::BigEndianU32, Suffix::Empty), b"hi"),
        vec![0, 0, 0, 2, b'h', b'i']
    );
}

#[test]
fn encode_appends_to_existing_bytes() {
    let mut codec = LengthPrefixed(Prefix::VarInt, Suffix::Empty);
    let mut dst = BytesMut::from(&b"ab"[..]);
    codec.encode(Bytes::from(&b"xyz"[..]), &mut dst).unwrap();
    assert_eq!(&dst[..], b"ab\x03xyz");
}

#[test]
fn decode_frame_and_leave_rest() {
    let mut codec = LengthPrefixed(Prefix::VarInt, Suffix::NewLine);
    let mut src = BytesMut::from(&b"\x06hello\nrest"[..]);
    assert!(codec.can_decode(&src));
    let msg = codec.decode(&mut src).unwrap().unwrap();
    assert_eq!(&msg[..], b"hello");
    assert_eq!(&src[..], b"rest");
}

#[test]
fn decode_big_endian_frames_in_order() {
    let mut codec = LengthPrefixed(Prefix::BigEndianU32, Suffix::Empty);
    let mut src = BytesMut::from(&[0u8, 0, 0, 1, b'a', 0, 0, 0, 2, b'b', b'c'][..]);
    assert_eq!(&codec.decode(&mut src).unwrap().unwrap()[..], b"a");
    assert_eq!(&codec.decode(&mut src).unwrap().unwrap()[..], b"bc");
    assert!(src.is_empty());
    assert_eq!(codec.decode(&mut src), Ok(None));
}

#[test]
fn decode_partial_frame_leaves_bytes() {
    let codec = LengthPrefixed(Prefix::VarInt, Suffix::NewLine);
    let frame = encode(codec, b"hello");
    for k in 0..frame.len() {
        let mut c = codec;
        let mut src = BytesMut::from(&frame[..k]);
        assert_eq!(c.decode(&mut src), Ok(None));
        assert_eq!(&src[..], &frame[..k]);
    }
}

#[test]
fn decode_missing_newline_consumes_frame() {
    let mut codec = LengthPrefixed(Prefix::VarInt, Suffix::NewLine);
    let mut src = BytesMut::from(&b"\x03abcZ"[..]);
    assert_eq!(codec.decode(&mut src), Err(CodecError::MissingNewline));
    assert_eq!(&src[..], b"Z");
}

#[test]
fn decode_overflowing_prefix_is_an_error() {
    let mut codec = LengthPrefixed(Prefix::VarInt, Suffix::Empty);
    let mut bytes = vec![0xffu8; 10];
    bytes.push(0x7f);
    let mut src = BytesMut::from(&bytes[..]);
    assert_eq!(codec.decode(&mut src), Err(CodecError::VarIntOverflow));
    assert_eq!(&src[..], &bytes[..]);
}

#[test]
fn can_decode_flags_empty_newline_frame() {
    let newline = LengthPrefixed(Prefix::VarInt, Suffix::NewLine);
    assert!(!newline.can_decode(&BytesMut::from(&[0u8][..])));
    let plain = LengthPrefixed(Prefix::VarInt, Suffix::Empty);
    assert!(plain.can_decode(&BytesMut::from(&[0u8][..])));
    let mut plain = plain;
    let mut src = BytesMut::from(&[0u8, 1][..]);
    let msg = plain.decode(&mut src).unwrap().unwrap();
    assert!(msg.is_empty());
    assert_eq!(&src[..], &[1]);
}

#[test]
fn can_decode_flags_overflowing_sum() {
    let codec = LengthPrefixed(Prefix::VarInt, Suffix::Empty);
    let mut bytes = encode_usize_max();
    bytes.push(0);
    assert!(!codec.can_decode(&BytesMut::from(&bytes[..])));
}

fn encode_usize_max() -> Vec<u8> {
    msgio::varint::encode_varint(usize::MAX)
}

#[test]
fn roundtrip_law_on_every_codec() {
    let codecs = [
        LengthPrefixed(Prefix::VarInt, Suffix::Empty),
        LengthPrefixed(Prefix::VarInt, Suffix::NewLine),
        LengthPrefixed(Prefix::BigEndianU32, Suffix::Empty),
        LengthPrefixed(Prefix::BigEndianU32, Suffix::NewLine),
    ];
    let long = vec![0x5au8; 300];
    for codec in codecs.iter() {
        for msg in [&b""[..], &b"x"[..], &long[..]] {
            let mut frame = encode(*codec, msg);
            frame.extend_from_slice(b"tail");
            let mut c = *codec;
            let mut src = BytesMut::from(&frame[..]);
            let got = c.decode(&mut src).unwrap().unwrap();
            assert_eq!(&got[..], msg);
            assert_eq!(&src[..], b"tail");
        }
    }
}

#[test]
fn can_encode_checks_buffer_limit() {
    let codec = LengthPrefixed(Prefix::VarInt, Suffix::NewLine);
    let dst = BytesMut::from(&b"abc"[..]);
    assert!(codec.can_encode(&dst, &Bytes::from(&b"hello"[..])));
    assert!(codec.can_encode(&BytesMut::new(), &Bytes::new()));
}

#[test]
fn encode_many_frames_into_one_buffer() {
    let mut codec = LengthPrefixed(Prefix::VarInt, Suffix::Empty);
    let mut dst = BytesMut::new();
    for i in 0..100u8 {
        codec.encode(Bytes::from(vec![i; i as usize]), &mut dst).unwrap();
    }
    for i in 0..100u8 {
        let msg = codec.decode(&mut dst).unwrap().unwrap();
        assert_eq!(&msg[..], &vec![i; i as usize][..]);
    }
    assert!(dst.is_empty());
}
