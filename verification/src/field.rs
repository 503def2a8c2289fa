//! The field adaptation: a message value, or an ordered collection of
//! message values, used as one tagged field inside a containing message.
//!
//! On the wire a singular message field is its key (tag paired with the
//! length-delimited wire type) followed by the message behind a varint
//! length prefix.  A repeated message field is each element encoded that
//! way in sequence order, every occurrence independently tagged and
//! independently framed.  Merging one occurrence of a repeated field
//! appends exactly one element, which is what lets occurrences accumulate
//! across frames and across buffers.
//!
//! The containing message reads the key itself and dispatches on the tag;
//! the merge functions here take over at the wire type and the frame.

use crate::buffer::{advances, ReadBuf, WriteBuf};
use crate::encoding::{
    check_wire_type, encode_key, encoded_len_varint, key_len, key_wire, lemma_key_wire_len,
    lemma_parse_frame_of_frame, lemma_varint_wire_len, parse_frame, parse_varint, varint,
    varint_len, WireType, MAX_TAG,
};
use crate::error::DecodeError;
use crate::message::Message;
use vstd::prelude::*;

verus! {

/// The varint length prefix and payload of one embedded message value.
pub open spec fn message_frame<M: Message>(v: M::V) -> Seq<u8> {
    varint(M::wire_spec(v).len() as u64) + M::wire_spec(v)
}

/// One tagged occurrence of an embedded message field: key, then frame.
pub open spec fn field_wire<M: Message>(v: M::V, tag: u32) -> Seq<u8> {
    key_wire(tag, WireType::LengthDelimited) + message_frame::<M>(v)
}

/// All occurrences of a repeated message field, in sequence order.
pub open spec fn repeated_wire<M: Message>(s: Seq<M::V>, tag: u32) -> Seq<u8>
    decreases s.len(),
{
    if s.len() == 0 {
        Seq::empty()
    } else {
        field_wire::<M>(s[0], tag) + repeated_wire::<M>(s.skip(1), tag)
    }
}

/// The models of a sequence of message values.
pub open spec fn views_of<M: Message>(s: Seq<M>) -> Seq<M::V> {
    s.map_values(|m: M| m@)
}

/// Merging one wire occurrence into a singular message field whose key has
/// been read already: `data` begins at the frame.  Yields the merged model
/// and the bytes consumed, or nothing on a wire-type mismatch, a malformed
/// or overrunning frame, or a frame the message type rejects.
pub open spec fn merge_field_spec<M: Message>(v: M::V, w: WireType, data: Seq<u8>) -> Option<
    (M::V, int),
> {
    if w != WireType::LengthDelimited {
        None
    } else {
        match parse_frame(data) {
            None => None,
            Some((frame, k)) => match M::merge_spec(v, frame) {
                None => None,
                Some(v2) => Some((v2, k)),
            },
        }
    }
}

/// Merging one wire occurrence into a repeated message field: decode one
/// new message from the frame and append it to the end of the sequence.
pub open spec fn merge_repeated_spec<M: Message>(s: Seq<M::V>, w: WireType, data: Seq<u8>) -> Option<
    (Seq<M::V>, int),
> {
    match merge_field_spec::<M>(M::init_spec(), w, data) {
        None => None,
        Some((v, k)) => Some((s.push(v), k)),
    }
}

/// Writes one occurrence of a singular message field: the key, then the
/// message behind its length prefix.  The caller must have sized the buffer
/// already — by the message contract a mismatch between `encoded_len` and
/// `encode` cannot occur, so no failure is left to report.
pub fn encode_field<M: Message>(value: &M, tag: u32, buf: &mut WriteBuf)
    requires
        1 <= tag <= MAX_TAG,
        old(buf).space() >= field_wire::<M>(value@, tag).len(),
    ensures
        final(buf).cap() == old(buf).cap(),
        final(buf)@ == old(buf)@ + field_wire::<M>(value@, tag),
{
    let ghost w = M::wire_spec(value@);
    let _rem = buf.remaining_mut();
    proof {
        lemma_key_wire_len(tag, WireType::LengthDelimited);
        lemma_varint_wire_len(w.len() as u64);
    }
    encode_key(tag, WireType::LengthDelimited, buf);
    match value.encode_length_delimited(buf) {
        Ok(()) => {},
        Err(_) => {
            proof {
                assert(false);
            }
        },
    }
    proof {
        assert(buf@ =~= old(buf)@ + field_wire::<M>(value@, tag));
    }
}

/// The number of bytes [`encode_field`] writes: the key's length plus the
/// message's own length-prefixed length.
pub fn encoded_len_field<M: Message>(value: &M, tag: u32) -> (n: usize)
    requires
        1 <= tag <= MAX_TAG,
        field_wire::<M>(value@, tag).len() <= usize::MAX,
    ensures
        n == field_wire::<M>(value@, tag).len(),
{
    proof {
        lemma_key_wire_len(tag, WireType::LengthDelimited);
        lemma_varint_wire_len(M::wire_spec(value@).len() as u64);
    }
    let klen = key_len(tag);
    let mlen = value.encoded_len();
    let vlen = encoded_len_varint(mlen as u64);
    klen + vlen + mlen
}

/// Merges one wire occurrence into a singular message field.  Rejects a
/// key whose wire type is not length-delimited before reading anything,
/// leaving both the field and the buffer untouched.
pub fn merge_field<M: Message>(
    value: &mut M,
    tag: u32,
    wire_type: WireType,
    buf: &mut ReadBuf,
) -> (r: Result<(), DecodeError>)
    ensures
        advances(*old(buf), *final(buf)),
        r is Ok <==> merge_field_spec::<M>(old(value)@, wire_type, old(buf)@) is Some,
        merge_field_spec::<M>(old(value)@, wire_type, old(buf)@) matches Some(p)
            ==> final(value)@ == p.0 && final(buf)@ == old(buf)@.skip(p.1),
        wire_type != WireType::LengthDelimited ==> r == Err::<(), DecodeError>(
            DecodeError::WireTypeMismatch,
        ) && *final(value) == *old(value) && *final(buf) == *old(buf),
        wire_type == WireType::LengthDelimited && parse_varint(old(buf)@) is None ==> r
            == Err::<(), DecodeError>(DecodeError::InvalidVarint) && *final(buf) == *old(buf),
        wire_type == WireType::LengthDelimited && (match parse_varint(old(buf)@) {
            Some(p) => p.0 > old(buf)@.len() - p.1,
            None => false,
        }) ==> r == Err::<(), DecodeError>(DecodeError::BufferUnderflow),
{
    match check_wire_type(WireType::LengthDelimited, wire_type) {
        Err(e) => return Err(e),
        Ok(()) => {},
    }
    value.merge_length_delimited(buf)
}

/// Merges one wire occurrence into a repeated message field: exactly one
/// new element is decoded from the frame and appended.  The same wire-type
/// check as for a singular field happens first.
pub fn merge_repeated<M: Message>(
    values: &mut Vec<M>,
    tag: u32,
    wire_type: WireType,
    buf: &mut ReadBuf,
) -> (r: Result<(), DecodeError>)
    ensures
        advances(*old(buf), *final(buf)),
        r is Ok <==> merge_repeated_spec::<M>(views_of(old(values)@), wire_type, old(buf)@)
            is Some,
        merge_repeated_spec::<M>(views_of(old(values)@), wire_type, old(buf)@) matches Some(p)
            ==> views_of(final(values)@) == p.0 && final(buf)@ == old(buf)@.skip(p.1),
        wire_type != WireType::LengthDelimited ==> r == Err::<(), DecodeError>(
            DecodeError::WireTypeMismatch,
        ) && *final(values) == *old(values) && *final(buf) == *old(buf),
        wire_type == WireType::LengthDelimited && parse_varint(old(buf)@) is None ==> r
            == Err::<(), DecodeError>(DecodeError::InvalidVarint) && *final(buf) == *old(buf),
        wire_type == WireType::LengthDelimited && (match parse_varint(old(buf)@) {
            Some(p) => p.0 > old(buf)@.len() - p.1,
            None => false,
        }) ==> r == Err::<(), DecodeError>(DecodeError::BufferUnderflow),
{
    let mut value = M::initial();
    match merge_field(&mut value, tag, wire_type, buf) {
        Err(e) => Err(e),
        Ok(()) => {
            values.push(value);
            proof {
                assert(views_of(values@) =~= views_of(old(values)@).push(
                    merge_field_spec::<M>(M::init_spec(), wire_type, old(buf)@)->Some_0.0,
                ));
            }
            Ok(())
        },
    }
}

/// The number of bytes the whole repeated field occupies: the sum of each
/// element's singular-field length.
pub fn encoded_len_repeated<M: Message>(values: &Vec<M>, tag: u32) -> (n: usize)
    requires
        1 <= tag <= MAX_TAG,
        repeated_wire::<M>(views_of(values@), tag).len() <= usize::MAX,
    ensures
        n == repeated_wire::<M>(views_of(values@), tag).len(),
{
    let ghost s = views_of(values@);
    let mut n: usize = 0;
    let mut i: usize = 0;
    proof {
        assert(s.take(0) =~= Seq::<M::V>::empty());
    }
    while i < values.len()
        invariant
            0 <= i <= values.len(),
            s == views_of(values@),
            s.len() == values@.len(),
            repeated_wire::<M>(s, tag).len() <= usize::MAX,
            1 <= tag <= MAX_TAG,
            n == repeated_wire::<M>(s.take(i as int), tag).len(),
        decreases values.len() - i,
    {
        proof {
            lemma_repeated_wire_split::<M>(s, i as int, tag);
            lemma_repeated_wire_split::<M>(s, i + 1, tag);
            assert(s.take(i + 1) =~= s.take(i as int).push(s[i as int]));
            lemma_repeated_wire_push::<M>(s.take(i as int), s[i as int], tag);
        }
        let flen = encoded_len_field(&values[i], tag);
        n = n + flen;
        i = i + 1;
    }
    proof {
        assert(s.take(values@.len() as int) =~= s);
    }
    n
}

/// Writes every element of a repeated message field, in sequence order,
/// each as its own tagged, length-prefixed occurrence.
pub fn encode_repeated<M: Message>(values: &Vec<M>, tag: u32, buf: &mut WriteBuf)
    requires
        1 <= tag <= MAX_TAG,
        old(buf).space() >= repeated_wire::<M>(views_of(values@), tag).len(),
    ensures
        final(buf).cap() == old(buf).cap(),
        final(buf)@ == old(buf)@ + repeated_wire::<M>(views_of(values@), tag),
{
    let ghost s = views_of(values@);
    let mut i: usize = 0;
    proof {
        assert(s.take(0) =~= Seq::<M::V>::empty());
        assert(buf@ =~= buf@ + repeated_wire::<M>(s.take(0), tag));
    }
    while i < values.len()
        invariant
            0 <= i <= values.len(),
            s == views_of(values@),
            s.len() == values@.len(),
            1 <= tag <= MAX_TAG,
            buf.cap() == old(buf).cap(),
            buf@ == old(buf)@ + repeated_wire::<M>(s.take(i as int), tag),
            old(buf).space() >= repeated_wire::<M>(s, tag).len(),
        decreases values.len() - i,
    {
        proof {
            lemma_repeated_wire_split::<M>(s, i as int, tag);
            lemma_repeated_wire_split::<M>(s, i + 1, tag);
            assert(s.take(i + 1) =~= s.take(i as int).push(s[i as int]));
            lemma_repeated_wire_push::<M>(s.take(i as int), s[i as int], tag);
        }
        encode_field(&values[i], tag, buf);
        proof {
            assert(buf@ =~= old(buf)@ + repeated_wire::<M>(s.take(i + 1), tag));
        }
        i = i + 1;
    }
    proof {
        assert(s.take(values@.len() as int) =~= s);
    }
}

/// Appending one element to a repeated field appends its occurrence bytes.
pub proof fn lemma_repeated_wire_push<M: Message>(s: Seq<M::V>, v: M::V, tag: u32)
    ensures
        repeated_wire::<M>(s.push(v), tag) == repeated_wire::<M>(s, tag) + field_wire::<M>(
            v,
            tag,
        ),
    decreases s.len(),
{
    if s.len() == 0 {
        assert(s.push(v)[0] == v);
        assert(s.push(v).skip(1) =~= s);
        assert(repeated_wire::<M>(s, tag) == Seq::<u8>::empty());
        assert(repeated_wire::<M>(s.push(v), tag) =~= repeated_wire::<M>(s, tag)
            + field_wire::<M>(v, tag));
    } else {
        assert(s.push(v)[0] == s[0]);
        assert(s.push(v).skip(1) =~= s.skip(1).push(v));
        lemma_repeated_wire_push::<M>(s.skip(1), v, tag);
        assert(repeated_wire::<M>(s.push(v), tag) =~= repeated_wire::<M>(s, tag)
            + field_wire::<M>(v, tag));
    }
}

/// The occurrence bytes of a split sequence are the two parts' occurrence
/// bytes in order.
pub proof fn lemma_repeated_wire_split<M: Message>(s: Seq<M::V>, i: int, tag: u32)
    requires
        0 <= i <= s.len(),
    ensures
        repeated_wire::<M>(s, tag) == repeated_wire::<M>(s.take(i), tag) + repeated_wire::<M>(
            s.skip(i),
            tag,
        ),
    decreases i,
{
    if i == 0 {
        assert(s.take(0) =~= Seq::<M::V>::empty());
        assert(s.skip(0) =~= s);
        assert(repeated_wire::<M>(s, tag) =~= repeated_wire::<M>(s.take(0), tag)
            + repeated_wire::<M>(s.skip(0), tag));
    } else {
        lemma_repeated_wire_split::<M>(s.skip(1), i - 1, tag);
        assert(s.take(i)[0] == s[0]);
        assert(s.take(i).skip(1) =~= s.skip(1).take(i - 1));
        assert(s.skip(i) =~= s.skip(1).skip(i - 1));
        assert(repeated_wire::<M>(s, tag) =~= repeated_wire::<M>(s.take(i), tag)
            + repeated_wire::<M>(s.skip(i), tag));
    }
}

/// A merged field occurrence consumed at least one byte and no more than
/// all of them.
pub proof fn lemma_merge_field_spec_bounds<M: Message>(v: M::V, w: WireType, data: Seq<u8>)
    ensures
        merge_field_spec::<M>(v, w, data) matches Some(p) ==> 1 <= p.1 <= data.len(),
{
    crate::encoding::lemma_parse_frame_bounds(data);
}

/// A merged repeated occurrence consumed at least one byte and no more
/// than all of them.
pub proof fn lemma_merge_repeated_spec_bounds<M: Message>(s: Seq<M::V>, w: WireType, data: Seq<u8>)
    ensures
        merge_repeated_spec::<M>(s, w, data) matches Some(p) ==> 1 <= p.1 <= data.len(),
{
    lemma_merge_field_spec_bounds::<M>(M::init_spec(), w, data);
}

/// Merging one occurrence looks only at the bytes it consumes: appending
/// more bytes to data that already merges does not change the outcome.
pub proof fn lemma_merge_field_spec_extend<M: Message>(
    v: M::V,
    w: WireType,
    data: Seq<u8>,
    ext: Seq<u8>,
)
    ensures
        merge_field_spec::<M>(v, w, data) is Some ==> merge_field_spec::<M>(v, w, data + ext)
            == merge_field_spec::<M>(v, w, data),
{
    crate::encoding::lemma_parse_frame_extend(data, ext);
}

/// The repeated counterpart of [`lemma_merge_field_spec_extend`].
pub proof fn lemma_merge_repeated_spec_extend<M: Message>(
    s: Seq<M::V>,
    w: WireType,
    data: Seq<u8>,
    ext: Seq<u8>,
)
    ensures
        merge_repeated_spec::<M>(s, w, data) is Some ==> merge_repeated_spec::<M>(s, w, data + ext)
            == merge_repeated_spec::<M>(s, w, data),
{
    lemma_merge_field_spec_extend::<M>(M::init_spec(), w, data, ext);
}

/// Round trip for one occurrence: a value's frame, followed by anything,
/// merges from the starting model back to the value, consuming exactly the
/// frame.
pub proof fn lemma_merge_field_spec_of_frame<M: Message>(v: M::V, rest: Seq<u8>)
    requires
        M::wire_spec(v).len() <= u64::MAX,
    ensures
        merge_field_spec::<M>(M::init_spec(), WireType::LengthDelimited, message_frame::<M>(v)
            + rest) == Some((v, message_frame::<M>(v).len() as int)),
{
    let w = M::wire_spec(v);
    lemma_varint_wire_len(w.len() as u64);
    lemma_parse_frame_of_frame(w, rest);
    assert(message_frame::<M>(v) + rest =~= varint(w.len() as u64) + w + rest);
    M::lemma_round_trip(v);
}

/// Accumulation across frames: merging two sequential frames for the same
/// repeated tag into a sequence appends their two messages in occurrence
/// order, and agrees with decoding each frame independently into an empty
/// sequence and concatenating the results.
pub proof fn lemma_repeated_accumulation<M: Message>(s: Seq<M::V>, a: M::V, b: M::V)
    requires
        M::wire_spec(a).len() <= u64::MAX,
        M::wire_spec(b).len() <= u64::MAX,
    ensures
        ({
            let fa = message_frame::<M>(a);
            let fb = message_frame::<M>(b);
            &&& merge_repeated_spec::<M>(s, WireType::LengthDelimited, fa + fb) == Some(
                (s.push(a), fa.len() as int),
            )
            &&& merge_repeated_spec::<M>(s.push(a), WireType::LengthDelimited, fb) == Some(
                (s.push(a).push(b), fb.len() as int),
            )
            &&& merge_repeated_spec::<M>(Seq::empty(), WireType::LengthDelimited, fa + fb)
                == Some((seq![a], fa.len() as int))
            &&& merge_repeated_spec::<M>(seq![a], WireType::LengthDelimited, fb) == Some(
                (seq![a, b], fb.len() as int),
            )
            &&& s.push(a).push(b) == s + seq![a, b]
        }),
{
    let wa = M::wire_spec(a);
    let wb = M::wire_spec(b);
    let fa = message_frame::<M>(a);
    let fb = message_frame::<M>(b);
    lemma_varint_wire_len(wa.len() as u64);
    lemma_varint_wire_len(wb.len() as u64);
    lemma_parse_frame_of_frame(wa, fb);
    assert(fa + fb =~= varint(wa.len() as u64) + wa + fb);
    lemma_parse_frame_of_frame(wb, Seq::empty());
    assert(fb =~= varint(wb.len() as u64) + wb + Seq::<u8>::empty());
    M::lemma_round_trip(a);
    M::lemma_round_trip(b);
    assert(Seq::<M::V>::empty().push(a) =~= seq![a]);
    assert(seq![a].push(b) =~= seq![a, b]);
    assert(s.push(a).push(b) =~= s + seq![a, b]);
}

} // verus!
