use bytes::{Bytes, BytesMut};
use msgio::{Codec, LengthPrefixed, Prefix, Suffix};
use msgio::read::{be_u32, varint_step, ReadLpm, ReadVpm, VarIntStep};
use msgio::write::{be_bytes, WriteLpm, WriteVpm};
use msgio::{CodecError, MAX_MESSAGE_SIZE};

#[test]
fn big_endian_bytes_both_ways() {
    assert_eq!(be_bytes(0x01020304), [1, 2, 3, 4]);
    assert_eq!(be_bytes(258), [0, 0, 1, 2]);
    assert_eq!(be_u32([1, 2, 3, 4]), 0x01020304);
    assert_eq!(be_u32([0xff, 0xff, 0xff, 0xff]), u32::MAX);
    for v in [0u32, 1, 255, 256, 65535, 0xdeadbeef, u32::MAX] {
        assert_eq!(be_u32(be_bytes(v)), v);
    }
}

#[test]
fn write_vpm_frames_with_varint() {
    let mut out: Vec<u8> = vec![9];
    out.write_vpm(b"abc").unwrap();
    assert_eq!(out, vec![9, 3, b'a', b'b', b'c']);
    let mut out: Vec<u8> = Vec::new();
    out.write_vpm(&vec![1u8; 200]).unwrap();
    assert_eq!(&out[..2], &[0xc8, 0x01]);
    assert_eq!(out.len(), 202);
}

#[test]
fn write_lpm_frames_with_big_endian() {
    let mut out: Vec<u8> = Vec::new();
    out.write_lpm(b"abc").unwrap();
    assert_eq!(out, vec![0, 0, 0, 3, b'a', b'b', b'c']);
}

#[test]
fn write_lpm_refuses_large_message() {
    let mut out: Vec<u8> = vec![7];
    let big = vec![0u8; MAX_MESSAGE_SIZE + 1];
    assert_eq!(out.write_lpm(&big), Err(CodecError::MessageTooLarge));
    assert_eq!(out, vec![7]);
    let edge = vec![0u8; MAX_MESSAGE_SIZE];
    assert_eq!(out.write_lpm(&edge), Ok(()));
    assert_eq!(out.len(), 1 + 4 + MAX_MESSAGE_SIZE);
}

#[test]
fn read_vpm_messages_in_order() {
    let data = [3u8, b'a', b'b', b'c', 2, b'x', b'y'];
    let mut r: &[u8] = &data;
    assert_eq!(r.read_vpm(), Ok(b"abc".to_vec()));
    assert_eq!(r.try_read_vpm(), Ok(Some(b"xy".to_vec())));
    assert_eq!(r.try_read_vpm(), Ok(None));
    assert!(r.is_empty());
}

#[test]
fn read_vpm_short_input() {
    let data = [5u8, b'a'];
    let mut r: &[u8] = &data;
    assert_eq!(r.read_vpm(), Err(CodecError::UnexpectedEof));
    assert!(r.is_empty());
    let data = [0x80u8, 0x80];
    let mut r: &[u8] = &data;
    assert_eq!(r.try_read_vpm(), Err(CodecError::UnexpectedEof));
    assert!(r.is_empty());
    let mut r: &[u8] = &[];
    assert_eq!(r.read_vpm(), Err(CodecError::UnexpectedEof));
}

#[test]
fn read_vpm_overflow_and_too_large() {
    let mut data = vec![0xffu8; 10];
    data.push(0x7f);
    data.push(42);
    let mut r: &[u8] = &data;
    assert_eq!(r.read_vpm(), Err(CodecError::VarIntOverflow));
    assert_eq!(r, &[42u8][..]);
    let mut data = msgio::varint::encode_varint(MAX_MESSAGE_SIZE + 1);
    data.push(1);
    let mut r: &[u8] = &data;
    assert_eq!(r.read_vpm(), Err(CodecError::MessageTooLarge));
    assert_eq!(r, &[1u8][..]);
}

#[test]
fn read_lpm_messages_in_order() {
    let data = [0u8, 0, 0, 2, b'x', b'y', 0, 0, 0, 0, b'z'];
    let mut r: &[u8] = &data;
    assert_eq!(r.read_lpm(), Ok(b"xy".to_vec()));
    assert_eq!(r.try_read_lpm(), Ok(Some(Vec::new())));
    assert_eq!(r, &[b'z'][..]);
}

#[test]
fn read_lpm_errors() {
    let mut r: &[u8] = &[0, 0];
    assert_eq!(r.try_read_lpm(), Err(CodecError::UnexpectedEof));
    assert!(r.is_empty());
    let mut r: &[u8] = &[];
    assert_eq!(r.try_read_lpm(), Ok(None));
    assert_eq!(r.read_lpm(), Err(CodecError::UnexpectedEof));
    let data = [0x01u8, 0, 0, 0, 5];
    let mut r: &[u8] = &data;
    assert_eq!(r.read_lpm(), Err(CodecError::MessageTooLarge));
    assert_eq!(r, &[5u8][..]);
    let data = [0u8, 0, 0, 3, b'a'];
    let mut r: &[u8] = &data;
    assert_eq!(r.read_lpm(), Err(CodecError::UnexpectedEof));
    assert!(r.is_empty());
}

#[test]
fn written_messages_read_back() {
    let msgs: [&[u8]; 3] = [b"", b"one", &[0xffu8; 300]];
    let mut vpm: Vec<u8> = Vec::new();
    let mut lpm: Vec<u8> = Vec::new();
    for m in msgs.iter() {
        vpm.write_vpm(m).unwrap();
        lpm.write_lpm(m).unwrap();
    }
    let mut rv: &[u8] = &vpm;
    let mut rl: &[u8] = &lpm;
    for m in msgs.iter() {
        assert_eq!(rv.read_vpm().unwrap(), m.to_vec());
        assert_eq!(rl.read_lpm().unwrap(), m.to_vec());
    }
    assert_eq!(rv.try_read_vpm(), Ok(None));
    assert_eq!(rl.try_read_lpm(), Ok(None));
}

#[test]
fn writers_agree_with_codec_frames() {
    let msg = b"frame me";
    let frame = |p, s| {
        let mut c = LengthPrefixed(p, s);
        let mut dst = BytesMut::new();
        c.encode(Bytes::from(&msg[..]), &mut dst).unwrap();
        dst.to_vec()
    };
    let mut out: Vec<u8> = Vec::new();
    out.write_vpm(msg).unwrap();
    assert_eq!(out, frame(Prefix::VarInt, Suffix::Empty));
    let mut out: Vec<u8> = Vec::new();
    out.write_lpm(msg).unwrap();
    assert_eq!(out, frame(Prefix::BigEndianU32, Suffix::Empty));
}

#[test]
fn varint_step_decisions() {
    assert_eq!(varint_step(&[], false), VarIntStep::NeedByte);
    assert_eq!(varint_step(&[], true), VarIntStep::Ended);
    assert_eq!(varint_step(&[0x80], false), VarIntStep::NeedByte);
    assert_eq!(varint_step(&[0x80], true), VarIntStep::Failed(CodecError::UnexpectedEof));
    assert_eq!(varint_step(&[0xac, 0x02], false), VarIntStep::Length(300));
    assert_eq!(varint_step(&[0xac, 0x02], true), VarIntStep::Length(300));
    let mut over = vec![0xffu8; 10];
    over.push(0x7f);
    assert_eq!(varint_step(&over, false), VarIntStep::Failed(CodecError::VarIntOverflow));
}
