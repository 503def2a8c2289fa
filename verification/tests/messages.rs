use protowire::buffer::{ReadBuf, WriteBuf};
use protowire::encoding::WireType;
use protowire::error::{DecodeError, EncodeError};
use protowire::field::{merge_field, merge_repeated};
use protowire::message::Message;
use protowire::messages::{Composite, Empty};

fn encode_to_vec<M: Message>(m: &M, cap: usize) -> Vec<u8> {
    let mut buf = WriteBuf::new(cap);
    m.encode(&mut buf).expect("encode");
    buf.into_vec()
}

#[test]
fn empty_encodes_to_nothing() {
    let e = Empty {};
    assert_eq!(e.encoded_len(), 0);
    assert_eq!(encode_to_vec(&e, 0), Vec::<u8>::new());
}

#[test]
fn empty_decodes_from_nothing() {
    let mut buf = ReadBuf::new(Vec::new());
    assert_eq!(Empty::decode(&mut buf), Ok(Empty {}));
}

#[test]
fn empty_rejects_any_content() {
    let mut buf = ReadBuf::new(vec![0x08, 0x00]);
    assert_eq!(Empty::decode(&mut buf), Err(DecodeError::UnknownTag));
}

#[test]
fn both_fields_empty_encode_to_zero_bytes() {
    let c = Composite::default();
    assert_eq!(c.encoded_len(), 0);
    assert_eq!(encode_to_vec(&c, 0), Vec::<u8>::new());

    let mut buf = ReadBuf::new(Vec::new());
    let decoded = Composite::decode(&mut buf).expect("decode");
    assert_eq!(decoded, c);
}

#[test]
fn composite_round_trip() {
    let c = Composite { child: Some(Empty {}), children: vec![Empty {}, Empty {}] };
    assert_eq!(c.encoded_len(), 6);
    let bytes = encode_to_vec(&c, 16);
    assert_eq!(bytes, vec![0x0a, 0x00, 0x12, 0x00, 0x12, 0x00]);

    let mut buf = ReadBuf::new(bytes);
    let decoded = Composite::decode(&mut buf).expect("decode");
    assert_eq!(decoded, c);
    assert_eq!(buf.remaining(), 0);
}

#[test]
fn encoded_len_matches_encode_output() {
    for c in [
        Composite { child: None, children: Vec::new() },
        Composite { child: Some(Empty {}), children: Vec::new() },
        Composite { child: None, children: vec![Empty {}; 5] },
        Composite { child: Some(Empty {}), children: vec![Empty {}; 3] },
    ] {
        let len = c.encoded_len();
        let bytes = encode_to_vec(&c, 64);
        assert_eq!(bytes.len(), len);
    }
}

#[test]
fn length_delimited_round_trip_leaves_trailing_bytes() {
    let c = Composite { child: Some(Empty {}), children: vec![Empty {}] };
    let mut buf = WriteBuf::new(16);
    c.encode_length_delimited(&mut buf).expect("encode");
    let mut bytes = buf.into_vec();
    assert_eq!(bytes, vec![0x04, 0x0a, 0x00, 0x12, 0x00]);

    bytes.push(0xde);
    bytes.push(0xad);
    let mut rd = ReadBuf::new(bytes);
    let decoded = Composite::decode_length_delimited(&mut rd).expect("decode");
    assert_eq!(decoded, c);
    // Exactly the frame was consumed: prefix plus payload.
    assert_eq!(rd.remaining(), 2);
    assert_eq!(rd.peek(0), 0xde);
}

#[test]
fn underflow_consumes_no_payload_bytes() {
    // Length 5 declared, only one byte follows.
    let mut rd = ReadBuf::new(vec![0x05, 0x00]);
    assert_eq!(
        Composite::decode_length_delimited(&mut rd),
        Err(DecodeError::BufferUnderflow)
    );
    // Only the length varint was consumed.
    assert_eq!(rd.remaining(), 1);
    assert_eq!(rd.peek(0), 0x00);
}

#[test]
fn merge_length_delimited_underflow() {
    let mut c = Composite::default();
    let mut rd = ReadBuf::new(vec![0x09]);
    assert_eq!(c.merge_length_delimited(&mut rd), Err(DecodeError::BufferUnderflow));
    assert_eq!(rd.remaining(), 0);
}

#[test]
fn wire_type_mismatch_does_not_mutate_field() {
    let mut e = Empty {};
    let mut rd = ReadBuf::new(vec![0x00]);
    assert_eq!(
        merge_field(&mut e, 1, WireType::Varint, &mut rd),
        Err(DecodeError::WireTypeMismatch)
    );
    assert_eq!(rd.remaining(), 1);

    let mut items: Vec<Empty> = Vec::new();
    assert_eq!(
        merge_repeated(&mut items, 2, WireType::SixtyFourBit, &mut rd),
        Err(DecodeError::WireTypeMismatch)
    );
    assert_eq!(items.len(), 0);
    assert_eq!(rd.remaining(), 1);
}

#[test]
fn composite_rejects_wrong_wire_type() {
    // Tag 1 with the varint wire type.
    let mut c = Composite::default();
    let mut rd = ReadBuf::new(vec![0x08, 0x00]);
    assert_eq!(c.merge(&mut rd), Err(DecodeError::WireTypeMismatch));
}

#[test]
fn composite_rejects_unknown_tag() {
    // Tag 3, length-delimited.
    let mut c = Composite::default();
    let mut rd = ReadBuf::new(vec![0x1a, 0x00]);
    assert_eq!(c.merge(&mut rd), Err(DecodeError::UnknownTag));
}

#[test]
fn composite_rejects_truncated_frame_varint() {
    let mut c = Composite::default();
    let mut rd = ReadBuf::new(vec![0x12, 0x80]);
    assert_eq!(c.merge(&mut rd), Err(DecodeError::InvalidVarint));
}

#[test]
fn repeated_frames_accumulate_in_order() {
    // Two zero-length frames for the same repeated tag, merged one
    // occurrence at a time into the same sequence.
    let mut items: Vec<Empty> = Vec::new();
    let mut rd = ReadBuf::new(vec![0x00, 0x00]);
    merge_repeated(&mut items, 2, WireType::LengthDelimited, &mut rd).expect("first frame");
    assert_eq!(items.len(), 1);
    merge_repeated(&mut items, 2, WireType::LengthDelimited, &mut rd).expect("second frame");
    assert_eq!(items.len(), 2);
    assert_eq!(rd.remaining(), 0);

    // Decoding each frame independently and concatenating agrees.
    let mut first: Vec<Empty> = Vec::new();
    let mut rd_a = ReadBuf::new(vec![0x00]);
    merge_repeated(&mut first, 2, WireType::LengthDelimited, &mut rd_a).expect("frame a");
    let mut second: Vec<Empty> = Vec::new();
    let mut rd_b = ReadBuf::new(vec![0x00]);
    merge_repeated(&mut second, 2, WireType::LengthDelimited, &mut rd_b).expect("frame b");
    let mut joined = first.clone();
    joined.extend(second.iter().cloned());
    assert_eq!(joined, items);
}

#[test]
fn merging_streams_composes() {
    // Merging occurrences A then B in one buffer equals merging A, then
    // separately merging B into the result.
    let mut one_pass = Composite::default();
    let mut rd = ReadBuf::new(vec![0x12, 0x00, 0x12, 0x00]);
    one_pass.merge(&mut rd).expect("one pass");

    let mut two_pass = Composite::default();
    let mut rd_a = ReadBuf::new(vec![0x12, 0x00]);
    two_pass.merge(&mut rd_a).expect("first pass");
    let mut rd_b = ReadBuf::new(vec![0x12, 0x00]);
    two_pass.merge(&mut rd_b).expect("second pass");

    assert_eq!(one_pass, two_pass);
    assert_eq!(one_pass.children.len(), 2);
}

#[test]
fn two_zero_length_frames_give_two_defaults() {
    let mut c = Composite::default();
    let mut rd = ReadBuf::new(vec![0x12, 0x00]);
    c.merge(&mut rd).expect("first occurrence");
    let mut rd2 = ReadBuf::new(vec![0x12, 0x00]);
    c.merge(&mut rd2).expect("second occurrence");
    assert_eq!(c.children.len(), 2);
    assert_eq!(c.children[0], Empty::default());
    assert_eq!(c.children[1], Empty::default());
}

#[test]
fn encode_without_capacity_fails_cleanly() {
    let c = Composite { child: Some(Empty {}), children: vec![Empty {}] };
    let mut buf = WriteBuf::new(3);
    assert_eq!(c.encode(&mut buf), Err(EncodeError::InsufficientCapacity));
    assert_eq!(buf.written(), 0);

    let mut buf2 = WriteBuf::new(4);
    assert_eq!(
        c.encode_length_delimited(&mut buf2),
        Err(EncodeError::InsufficientCapacity)
    );
    assert_eq!(buf2.written(), 0);
}

#[test]
fn boxed_message_forwards_the_contract() {
    let b: Box<Composite> =
        Box::new(Composite { child: None, children: vec![Empty {}, Empty {}] });
    assert_eq!(b.encoded_len(), 4);
    let bytes = encode_to_vec(&b, 8);
    assert_eq!(bytes, vec![0x12, 0x00, 0x12, 0x00]);

    let mut rd = ReadBuf::new(bytes);
    let decoded = Box::<Composite>::decode(&mut rd).expect("decode");
    assert_eq!(*decoded, *b);
}

#[test]
fn merge_after_error_reports_error_not_default() {
    // A nested failure bubbles up unchanged through the frame.
    let mut c = Composite::default();
    // Tag 1 frame of length 1 holding an unknown-tag byte stream.
    let mut rd = ReadBuf::new(vec![0x0a, 0x01, 0x1a]);
    assert_eq!(c.merge(&mut rd), Err(DecodeError::UnknownTag));
}

#[test]
fn error_descriptions_name_the_error() {
    assert_eq!(DecodeError::BufferUnderflow.describe(), "buffer underflow");
    assert_eq!(DecodeError::WireTypeMismatch.describe(), "wire type mismatch");
    assert_eq!(DecodeError::InvalidVarint.describe(), "invalid varint");
    assert_eq!(DecodeError::InvalidKey.describe(), "invalid field key");
    assert_eq!(DecodeError::UnknownTag.describe(), "unknown field tag");
    assert_eq!(
        EncodeError::InsufficientCapacity.describe(),
        "insufficient buffer capacity"
    );
}
