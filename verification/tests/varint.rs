use msgio::varint::{decode_varint, encode_varint, encoded_varint_len, varint_end};
use msgio::CodecError;

#[test]
fn encode_small_values() {
    assert_eq!(encode_varint(0), vec![0u8]);
    assert_eq!(encode_varint(1), vec![1u8]);
    assert_eq!(encode_varint(127), vec![0x7fu8]);
}

#[test]
fn encode_multi_byte_values() {
    assert_eq!(encode_varint(128), vec![0x80u8, 0x01]);
    assert_eq!(encode_varint(300), vec![0xacu8, 0x02]);
    assert_eq!(encode_varint(16384), vec![0x80u8, 0x80, 0x01]);
}

#[test]
fn encode_largest_value() {
    let mut expected = vec![0xffu8; (usize::BITS as usize + 6) / 7 - 1];
    expected.push(if usize::BITS == 64 { 0x01 } else { 0x0f });
    assert_eq!(encode_varint(usize::MAX), expected);
}

#[test]
fn encoded_len_matches_encoding() {
    for v in [0usize, 1, 127, 128, 300, 16383, 16384, 1 << 20, usize::MAX] {
        assert_eq!(encoded_varint_len(v), encode_varint(v).len());
    }
    assert_eq!(encoded_varint_len(300), 2);
}

#[test]
fn decode_complete_varint_with_trailing_bytes() {
    assert_eq!(decode_varint(&[0xac, 0x02, 0xff]), Ok(Some((300, 2))));
    assert_eq!(decode_varint(&[0x05]), Ok(Some((5, 1))));
}

#[test]
fn decode_incomplete_varint() {
    assert_eq!(decode_varint(&[]), Ok(None));
    assert_eq!(decode_varint(&[0x80]), Ok(None));
    assert_eq!(decode_varint(&[0xff, 0xff]), Ok(None));
}

#[test]
fn decode_overflowing_varint() {
    let mut bytes = vec![0xffu8; 10];
    bytes.push(0x7f);
    assert_eq!(decode_varint(&bytes), Err(CodecError::VarIntOverflow));
}

#[test]
fn decode_padded_zero() {
    let mut bytes = vec![0x80u8; 12];
    bytes.push(0x00);
    assert_eq!(decode_varint(&bytes), Ok(Some((0, 13))));
}

#[test]
fn varint_roundtrip_law_on_values() {
    for v in [0usize, 1, 127, 128, 255, 300, 65535, 1 << 40, usize::MAX - 1, usize::MAX] {
        let mut bytes = encode_varint(v);
        let n = bytes.len();
        bytes.extend_from_slice(&[7, 8, 9]);
        assert_eq!(decode_varint(&bytes), Ok(Some((v, n))));
        for k in 0..n {
            assert_eq!(decode_varint(&bytes[..k]), Ok(None));
        }
    }
}

#[test]
fn varint_end_finds_last_byte() {
    assert_eq!(varint_end(&[0x80, 0x80, 0x01, 0x80]), Some(3));
    assert_eq!(varint_end(&[0x80, 0x80]), None);
}
