use bytes::{Bytes, BytesMut};
use msgio::lpm::WriteLpm;
use msgio::{Codec, LengthPrefixed, Prefix, Suffix};

#[test]
fn write_line_lpm_counts_newline() {
    let mut out: Vec<u8> = Vec::new();
    out.write_lpm(b"abc").unwrap();
    assert_eq!(out, b"\x04abc\n".to_vec());
    out.write_lpm(b"").unwrap();
    assert_eq!(out, b"\x04abc\n\x01\n".to_vec());
}

#[test]
fn line_frames_decode_with_newline_codec() {
    let mut out: Vec<u8> = Vec::new();
    out.write_lpm(b"frame me").unwrap();
    let mut codec = LengthPrefixed(Prefix::VarInt, Suffix::NewLine);
    let mut dst = BytesMut::new();
    codec.encode(Bytes::from(&b"frame me"[..]), &mut dst).unwrap();
    assert_eq!(out, dst.to_vec());
    let mut src = BytesMut::from(&out[..]);
    assert_eq!(&codec.decode(&mut src).unwrap().unwrap()[..], b"frame me");
}
