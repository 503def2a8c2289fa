use protowire::buffer::{ReadBuf, WriteBuf};
use protowire::encoding::{
    check_wire_type, decode_key, decode_varint, encode_key, encode_varint, encoded_len_varint,
    key_len, WireType, MAX_TAG,
};
use protowire::error::DecodeError;

fn varint_bytes(v: u64) -> Vec<u8> {
    let mut buf = WriteBuf::new(10);
    encode_varint(v, &mut buf);
    buf.into_vec()
}

#[test]
fn varint_single_byte_values() {
    assert_eq!(varint_bytes(0), vec![0x00]);
    assert_eq!(varint_bytes(1), vec![0x01]);
    assert_eq!(varint_bytes(127), vec![0x7f]);
    assert_eq!(encoded_len_varint(0), 1);
    assert_eq!(encoded_len_varint(127), 1);
}

#[test]
fn varint_multi_byte_values() {
    assert_eq!(varint_bytes(128), vec![0x80, 0x01]);
    assert_eq!(varint_bytes(300), vec![0xac, 0x02]);
    assert_eq!(encoded_len_varint(128), 2);
    assert_eq!(encoded_len_varint(300), 2);
    assert_eq!(
        varint_bytes(u64::MAX),
        vec![0xff, 0xff, 0xff, 0xff, 0xff, 0xff, 0xff, 0xff, 0xff, 0x01]
    );
    assert_eq!(encoded_len_varint(u64::MAX), 10);
}

#[test]
fn varint_round_trip_samples() {
    for v in [0u64, 1, 127, 128, 300, 16_383, 16_384, u64::MAX / 2, u64::MAX] {
        let bytes = varint_bytes(v);
        assert_eq!(bytes.len(), encoded_len_varint(v));
        let mut buf = ReadBuf::new(bytes);
        assert_eq!(decode_varint(&mut buf), Ok(v));
        assert_eq!(buf.remaining(), 0);
    }
}

#[test]
fn varint_decode_leaves_trailing_bytes() {
    let mut buf = ReadBuf::new(vec![0xac, 0x02, 0x07, 0x09]);
    assert_eq!(decode_varint(&mut buf), Ok(300));
    assert_eq!(buf.remaining(), 2);
}

#[test]
fn varint_truncated_is_invalid() {
    let mut buf = ReadBuf::new(vec![0x80]);
    assert_eq!(decode_varint(&mut buf), Err(DecodeError::InvalidVarint));
    assert_eq!(buf.remaining(), 1);

    let mut empty = ReadBuf::new(Vec::new());
    assert_eq!(decode_varint(&mut empty), Err(DecodeError::InvalidVarint));
}

#[test]
fn varint_overflow_is_invalid() {
    // 2 * 128^9 == 2^64, one past what sixty-four bits can hold.
    let mut bytes = vec![0x80; 9];
    bytes.push(0x02);
    let mut buf = ReadBuf::new(bytes);
    assert_eq!(decode_varint(&mut buf), Err(DecodeError::InvalidVarint));
}

#[test]
fn key_single_byte_round_trip() {
    let mut buf = WriteBuf::new(10);
    encode_key(1, WireType::LengthDelimited, &mut buf);
    let bytes = buf.into_vec();
    assert_eq!(bytes, vec![0x0a]);
    assert_eq!(key_len(1), 1);

    let mut rd = ReadBuf::new(bytes);
    assert_eq!(decode_key(&mut rd), Ok((1, WireType::LengthDelimited)));
    assert_eq!(rd.remaining(), 0);
}

#[test]
fn key_multi_byte_round_trip() {
    let mut buf = WriteBuf::new(10);
    encode_key(300, WireType::Varint, &mut buf);
    let bytes = buf.into_vec();
    assert_eq!(bytes.len(), key_len(300));

    let mut rd = ReadBuf::new(bytes);
    assert_eq!(decode_key(&mut rd), Ok((300, WireType::Varint)));
}

#[test]
fn key_largest_tag_round_trip() {
    let mut buf = WriteBuf::new(10);
    encode_key(MAX_TAG, WireType::ThirtyTwoBit, &mut buf);
    let bytes = buf.into_vec();
    assert_eq!(bytes.len(), key_len(MAX_TAG));

    let mut rd = ReadBuf::new(bytes);
    assert_eq!(decode_key(&mut rd), Ok((MAX_TAG, WireType::ThirtyTwoBit)));
}

#[test]
fn key_tag_zero_is_invalid() {
    let mut rd = ReadBuf::new(vec![0x02]);
    assert_eq!(decode_key(&mut rd), Err(DecodeError::InvalidKey));
}

#[test]
fn key_tag_above_maximum_is_invalid() {
    // The varint for 8 * (MAX_TAG + 1): a tag one past the protocol maximum.
    let mut rd = ReadBuf::new(vec![0x80, 0x80, 0x80, 0x80, 0x10]);
    assert_eq!(decode_key(&mut rd), Err(DecodeError::InvalidKey));
}

#[test]
fn key_unassigned_wire_type_is_invalid() {
    // Tag 1 with wire-type number 3.
    let mut rd = ReadBuf::new(vec![0x0b]);
    assert_eq!(decode_key(&mut rd), Err(DecodeError::InvalidKey));
}

#[test]
fn wire_type_check() {
    assert_eq!(
        check_wire_type(WireType::LengthDelimited, WireType::LengthDelimited),
        Ok(())
    );
    assert_eq!(
        check_wire_type(WireType::LengthDelimited, WireType::Varint),
        Err(DecodeError::WireTypeMismatch)
    );
}

#[test]
fn read_buf_cursor_operations() {
    let mut buf = ReadBuf::new(vec![1, 2, 3, 4, 5]);
    assert_eq!(buf.remaining(), 5);
    assert_eq!(buf.peek(0), 1);
    assert_eq!(buf.peek(4), 5);
    buf.advance(2);
    assert_eq!(buf.remaining(), 3);
    assert_eq!(buf.peek(0), 3);

    let prev = buf.restrict(1);
    assert_eq!(buf.remaining(), 1);
    assert_eq!(buf.peek(0), 3);
    buf.advance(1);
    assert_eq!(buf.remaining(), 0);
    buf.restore(prev);
    assert_eq!(buf.remaining(), 2);
    assert_eq!(buf.peek(0), 4);
}

#[test]
fn write_buf_capacity_tracking() {
    let mut buf = WriteBuf::new(3);
    assert_eq!(buf.remaining_mut(), 3);
    buf.put_u8(9);
    assert_eq!(buf.remaining_mut(), 2);
    assert_eq!(buf.written(), 1);
    assert_eq!(buf.into_vec(), vec![9]);
}
