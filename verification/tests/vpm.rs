use msgio::vpm::VpmCodec;
use msgio::CodecError;
use tokio_core::io::EasyBuf;

#[allow(deprecated)]
fn easy(bytes: &[u8]) -> EasyBuf {
    EasyBuf::from(bytes.to_vec())
}

#[allow(deprecated)]
#[test]
fn vpm_decode_frame_followed_by_more() {
    let mut codec = VpmCodec;
    let mut buf = easy(&[3, b'a', b'b', b'c', 9]);
    let msg = codec.decode(&mut buf).unwrap().unwrap();
    assert_eq!(msg.as_slice(), b"abc");
    assert_eq!(buf.as_slice(), &[9]);
}

#[allow(deprecated)]
#[test]
fn vpm_decode_waits_for_a_byte_after_the_frame() {
    let mut codec = VpmCodec;
    let mut buf = easy(&[3, b'a', b'b', b'c']);
    assert!(codec.decode(&mut buf).unwrap().is_none());
    assert_eq!(buf.as_slice(), &[3, b'a', b'b', b'c']);
    let mut buf = easy(&[0x80]);
    assert!(codec.decode(&mut buf).unwrap().is_none());
}

#[allow(deprecated)]
#[test]
fn vpm_decode_overflow() {
    let mut codec = VpmCodec;
    let mut bytes = vec![0xffu8; 10];
    bytes.push(0x7f);
    let mut buf = easy(&bytes);
    assert_eq!(codec.decode(&mut buf).err(), Some(CodecError::VarIntOverflow));
}

#[allow(deprecated)]
#[test]
fn vpm_encode_then_decode() {
    let mut codec = VpmCodec;
    let mut out: Vec<u8> = vec![];
    codec.encode(b"hello".to_vec(), &mut out).unwrap();
    assert_eq!(out, b"\x05hello".to_vec());
    out.push(0);
    let mut buf = easy(&out);
    let msg = codec.decode(&mut buf).unwrap().unwrap();
    assert_eq!(msg.as_slice(), b"hello");
    assert_eq!(buf.as_slice(), &[0]);
}
