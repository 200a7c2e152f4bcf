use bytes::{Bytes, BytesMut};
use msgio::framed::MsgFramed;
use msgio::{LengthPrefixed, Prefix, Suffix};

#[test]
fn framed_buffers_until_a_message_is_whole() {
    let mut framed = MsgFramed::new(7u32, LengthPrefixed(Prefix::VarInt, Suffix::Empty));
    framed.receive(&[3, b'a']);
    assert_eq!(framed.pending_len(), 2);
    assert!(framed.can_decode_next());
    assert_eq!(framed.decode_next(), Ok(None));
    framed.receive(&[b'b', b'c', 1]);
    assert_eq!(&framed.decode_next().unwrap().unwrap()[..], b"abc");
    assert_eq!(framed.decode_next(), Ok(None));
    framed.receive(&[b'z']);
    assert_eq!(&framed.decode_next().unwrap().unwrap()[..], b"z");
    *framed.transport_mut() += 1;
    assert_eq!(framed.into_inner(), 8);
}

#[test]
fn framed_flags_input_that_would_panic() {
    let mut framed = MsgFramed::new((), LengthPrefixed(Prefix::VarInt, Suffix::NewLine));
    framed.receive(&[0]);
    assert!(!framed.can_decode_next());
}

#[test]
fn framed_send_then_reclaim() {
    let mut framed = MsgFramed::new((), LengthPrefixed(Prefix::BigEndianU32, Suffix::NewLine));
    assert_eq!(framed.buffer_size_hint(), 1024);
    assert!(framed.can_prepare_send(&Bytes::from(&b"hello"[..])));
    let sent = framed.prepare_send(Bytes::from(&b"hello"[..])).unwrap();
    assert_eq!(&sent[..], b"\x00\x00\x00\x06hello\n");
    assert_eq!(framed.buffer_size_hint(), (1024 + 10) / 2);
    let mut back = BytesMut::from(&sent[..]);
    let item = framed.reclaim(&mut back).unwrap().unwrap();
    assert_eq!(&item[..], b"hello");
    assert!(back.is_empty());
}
