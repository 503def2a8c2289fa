//! The primitive wire codec: base-128 varints, field keys, and
//! length-delimited frames.
//!
//! A varint stores an unsigned integer in base-128 groups, least significant
//! group first; every byte but the last has its high bit set.  A field key is
//! a varint holding `tag * 8 + wire_type`.  A length-delimited frame is a
//! varint byte count followed by exactly that many payload bytes.

use crate::buffer::{advances, ReadBuf, WriteBuf};
use crate::error::DecodeError;
use vstd::arithmetic::div_mod::{
    lemma_div_decreases, lemma_fundamental_div_mod, lemma_multiply_divide_lt,
};
use vstd::arithmetic::power2::{lemma2_to64, lemma_pow2_adds, pow2};
use vstd::prelude::*;

verus! {

/// The base-128 encoding of `v`: its low seven bits (with the continuation
/// bit set when more follow), then the encoding of the rest.
pub open spec fn varint(v: u64) -> Seq<u8>
    decreases v,
{
    if v < 128 {
        seq![v as u8]
    } else {
        seq![(v % 128 + 128) as u8] + varint((v / 128) as u64)
    }
}

/// The number of bytes in `varint(v)`.
pub open spec fn varint_len(v: u64) -> int
    decreases v,
{
    if v < 128 {
        1
    } else {
        1 + varint_len((v / 128) as u64)
    }
}

/// What reading a varint from the front of `s` yields: the value and the
/// number of bytes consumed, or nothing when `s` ends before a terminating
/// byte or the value does not fit in sixty-four bits.
pub open spec fn parse_varint(s: Seq<u8>) -> Option<(u64, int)>
    decreases s.len(),
{
    if s.len() == 0 {
        None
    } else if s[0] < 128 {
        Some((s[0] as u64, 1))
    } else {
        match parse_varint(s.skip(1)) {
            None => None,
            Some((hi, n)) => {
                if hi <= (u64::MAX - (s[0] - 128)) / 128 {
                    Some(((hi * 128 + (s[0] - 128)) as u64, n + 1))
                } else {
                    None
                }
            },
        }
    }
}

/// A varint is one to ten bytes long.
pub proof fn lemma_varint_len_bounds(v: u64)
    ensures
        1 <= varint_len(v) <= 10,
{
    lemma2_to64();
    vstd::arithmetic::power2::lemma_pow2_strictly_increases(64, 70);
    lemma_varint_len_at_most(v, 10);
}

proof fn lemma_varint_len_at_most(v: u64, k: int)
    requires
        1 <= k,
        v < pow2((7 * k) as nat),
    ensures
        1 <= varint_len(v) <= k,
    decreases k,
{
    if v >= 128 {
        lemma_pow2_adds(7, (7 * k - 7) as nat);
        lemma2_to64();
        assert(v < 128 * pow2((7 * (k - 1)) as nat));
        lemma_multiply_divide_lt(v as int, 128, pow2((7 * (k - 1)) as nat) as int);
        lemma_varint_len_at_most((v / 128) as u64, k - 1);
    }
}

/// `varint(v)` really has `varint_len(v)` bytes.
pub proof fn lemma_varint_wire_len(v: u64)
    ensures
        varint(v).len() == varint_len(v),
    decreases v,
{
    if v >= 128 {
        lemma_varint_wire_len((v / 128) as u64);
    }
}

/// A parsed varint consumed at least one byte and no more than all of them.
pub proof fn lemma_parse_varint_bounds(s: Seq<u8>)
    ensures
        parse_varint(s) matches Some(p) ==> 1 <= p.1 <= s.len(),
    decreases s.len(),
{
    if s.len() > 0 && s[0] >= 128 {
        lemma_parse_varint_bounds(s.skip(1));
    }
}

/// Reading a varint looks only at the bytes it consumes: appending more
/// bytes to a sequence that already parses does not change the outcome.
pub proof fn lemma_parse_varint_extend(s: Seq<u8>, ext: Seq<u8>)
    ensures
        parse_varint(s) is Some ==> parse_varint(s + ext) == parse_varint(s),
    decreases s.len(),
{
    if s.len() > 0 && parse_varint(s) is Some {
        assert((s + ext)[0] == s[0]);
        if s[0] >= 128 {
            assert((s + ext).skip(1) =~= s.skip(1) + ext);
            lemma_parse_varint_extend(s.skip(1), ext);
        }
    }
}

/// Round trip: the encoding of `v`, followed by anything, parses back to
/// exactly `v`, consuming exactly the encoding.
pub proof fn lemma_parse_varint_of_varint(v: u64, rest: Seq<u8>)
    ensures
        parse_varint(varint(v) + rest) == Some((v, varint_len(v))),
    decreases v,
{
    let s = varint(v) + rest;
    if v < 128 {
        assert(s[0] == v as u8);
    } else {
        let b = (v % 128 + 128) as u8;
        assert(s[0] == b);
        assert(s.skip(1) =~= varint((v / 128) as u64) + rest);
        lemma_parse_varint_of_varint((v / 128) as u64, rest);
        lemma_fundamental_div_mod(v as int, 128);
        assert((v / 128) * 128 + (v % 128) == v as int) by (nonlinear_arith);
        assert(v / 128 <= (u64::MAX - (b - 128)) / 128) by {
            assert((v / 128) * 128 <= u64::MAX - (v % 128));
            lemma_div_is_le_after_mul((v as int) / 128, u64::MAX - (b - 128), 128);
        }
    }
}

/// From `a * d <= b` and `d > 0` conclude `a <= b / d`.
proof fn lemma_div_is_le_after_mul(a: int, b: int, d: int)
    requires
        d > 0,
        a * d <= b,
    ensures
        a <= b / d,
{
    lemma_fundamental_div_mod(b, d);
    assert(a <= b / d) by (nonlinear_arith)
        requires
            d > 0,
            a * d <= b,
            b == d * (b / d) + b % d,
            0 <= b % d < d,
    ;
}

/// How many bytes [`encode_varint`] writes for `v`.
pub fn encoded_len_varint(v: u64) -> (n: usize)
    ensures
        n == varint_len(v),
    decreases v,
{
    proof {
        lemma_varint_len_bounds(v);
    }
    if v < 128 {
        1
    } else {
        proof {
            lemma_div_decreases(v as int, 128);
            lemma_varint_len_bounds(v / 128);
        }
        1 + encoded_len_varint(v / 128)
    }
}

/// Appends the base-128 encoding of `v` to `buf`.
pub fn encode_varint(v: u64, buf: &mut WriteBuf)
    requires
        old(buf).space() >= varint_len(v),
    ensures
        final(buf).cap() == old(buf).cap(),
        final(buf)@ == old(buf)@ + varint(v),
    decreases v,
{
    proof {
        lemma_varint_len_bounds(v);
    }
    if v < 128 {
        buf.put_u8(v as u8);
        proof {
            assert(buf@ =~= old(buf)@ + varint(v));
        }
    } else {
        buf.put_u8((v % 128 + 128) as u8);
        proof {
            lemma_div_decreases(v as int, 128);
        }
        encode_varint(v / 128, buf);
        proof {
            assert(buf@ =~= old(buf)@ + varint(v));
        }
    }
}

/// Reads a varint that starts `i` bytes ahead of the position, without
/// advancing the cursor.
fn decode_varint_at(buf: &ReadBuf, i: usize) -> (r: Result<(u64, usize), DecodeError>)
    requires
        i <= buf@.len(),
    ensures
        buf@.len() <= usize::MAX,
        match parse_varint(buf@.skip(i as int)) {
            Some(p) => r == Ok::<(u64, usize), DecodeError>((p.0, p.1 as usize)),
            None => r == Err::<(u64, usize), DecodeError>(DecodeError::InvalidVarint),
        },
    decreases buf@.len() - i,
{
    let ghost s = buf@.skip(i as int);
    proof {
        lemma_parse_varint_bounds(s);
    }
    let rem = buf.remaining();
    if i == rem {
        Err(DecodeError::InvalidVarint)
    } else {
        let b = buf.peek(i);
        proof {
            assert(s[0] == buf@[i as int]);
        }
        if b < 128 {
            Ok((b as u64, 1))
        } else {
            proof {
                assert(buf@.skip(i + 1 as int) =~= s.skip(1));
            }
            match decode_varint_at(buf, i + 1) {
                Err(e) => Err(e),
                Ok((hi, n)) => {
                    let low = (b - 128) as u64;
                    if hi <= (u64::MAX - low) / 128 {
                        proof {
                            lemma_parse_varint_bounds(s.skip(1));
                            assert(hi * 128 + low <= u64::MAX) by {
                                lemma_fundamental_div_mod((u64::MAX - low) as int, 128);
                                assert(hi as int * 128 <= (u64::MAX - low) / 128 * 128);
                                assert(hi as int * 128 <= ((u64::MAX - low) / 128) * 128
                                    ==> hi as int * 128 + low <= u64::MAX) by (nonlinear_arith)
                                    requires
                                        ((u64::MAX - low) / 128) * 128 + ((u64::MAX - low) % 128)
                                            == u64::MAX - low,
                                        (u64::MAX - low) % 128 >= 0,
                                ;
                            }
                        }
                        Ok((hi * 128 + low, n + 1))
                    } else {
                        Err(DecodeError::InvalidVarint)
                    }
                },
            }
        }
    }
}

/// Reads a varint from the front of `buf`, consuming its bytes on success
/// and leaving the cursor untouched on failure.
pub fn decode_varint(buf: &mut ReadBuf) -> (r: Result<u64, DecodeError>)
    ensures
        advances(*old(buf), *final(buf)),
        match parse_varint(old(buf)@) {
            Some(p) => {
                &&& r == Ok::<u64, DecodeError>(p.0)
                &&& final(buf)@ == old(buf)@.skip(p.1)
                &&& final(buf).pos() == old(buf).pos() + p.1
            },
            None => {
                &&& r == Err::<u64, DecodeError>(DecodeError::InvalidVarint)
                &&& *final(buf) == *old(buf)
            },
        },
{
    proof {
        assert(buf@.skip(0) =~= buf@);
        lemma_parse_varint_bounds(buf@);
    }
    match decode_varint_at(buf, 0) {
        Err(e) => Err(e),
        Ok((v, n)) => {
            buf.advance(n);
            Ok(v)
        },
    }
}

/// The wire-type discriminant carried in a field key.  It tells a decoder
/// how to find the extent of the field's bytes.
#[derive(Clone, Copy, Debug, PartialEq, Eq, Structural)]
pub enum WireType {
    /// A bare varint value.
    Varint,
    /// Eight bytes, fixed width.
    SixtyFourBit,
    /// A varint byte count followed by that many payload bytes.  Embedded
    /// messages always use this wire type.
    LengthDelimited,
    /// Four bytes, fixed width.
    ThirtyTwoBit,
}

/// The largest field tag the protocol admits.
pub const MAX_TAG: u32 = 0x1fff_ffff;

/// The number a wire type contributes to the key varint.
pub open spec fn wire_type_num(w: WireType) -> u64 {
    match w {
        WireType::Varint => 0,
        WireType::SixtyFourBit => 1,
        WireType::LengthDelimited => 2,
        WireType::ThirtyTwoBit => 5,
    }
}

/// The wire type a key varint's low three bits name, if any.
pub open spec fn wire_type_of_num(n: u64) -> Option<WireType> {
    if n == 0 {
        Some(WireType::Varint)
    } else if n == 1 {
        Some(WireType::SixtyFourBit)
    } else if n == 2 {
        Some(WireType::LengthDelimited)
    } else if n == 5 {
        Some(WireType::ThirtyTwoBit)
    } else {
        None
    }
}

/// The bytes of the key that opens a field occurrence: a varint holding the
/// tag and the wire type together.
pub open spec fn key_wire(tag: u32, w: WireType) -> Seq<u8> {
    varint((8 * tag + wire_type_num(w)) as u64)
}

/// The number of bytes in a field key with tag `tag`; the wire type never
/// changes it.
pub open spec fn key_len_spec(tag: u32) -> int {
    varint_len((8 * tag) as u64)
}

/// What reading a field key from the front of `s` yields: the tag, the wire
/// type, and the number of bytes consumed; or nothing when the varint is
/// malformed, the tag is zero or too large, or the wire-type number is
/// unassigned.
pub open spec fn parse_key(s: Seq<u8>) -> Option<(u32, WireType, int)> {
    match parse_varint(s) {
        None => None,
        Some((v, n)) => {
            let tag = v / 8;
            match wire_type_of_num(v % 8) {
                None => None,
                Some(w) => if 1 <= tag <= MAX_TAG {
                    Some((tag as u32, w, n))
                } else {
                    None
                },
            }
        },
    }
}

/// A key is as long with any wire type as with wire type zero.
pub proof fn lemma_key_wire_len(tag: u32, w: WireType)
    ensures
        key_wire(tag, w).len() == key_len_spec(tag),
        1 <= key_len_spec(tag) <= 10,
{
    let a = 8 * tag as int;
    let wn = wire_type_num(w) as int;
    let k = (a + wn) as u64;
    lemma_varint_wire_len(k);
    lemma_varint_len_bounds((8 * tag) as u64);
    assert(varint_len(k) == varint_len((8 * tag) as u64)) by {
        lemma_varint_len_same_group((8 * tag) as u64, k);
    }
}

/// Two values in the same group of eight have equally long varints.
proof fn lemma_varint_len_same_group(a: u64, b: u64)
    requires
        a % 8 == 0,
        a <= b < a + 8,
    ensures
        varint_len(b) == varint_len(a),
{
    if a < 128 {
        assert(b < 128) by (nonlinear_arith)
            requires
                a % 8 == 0,
                a < 128,
                a <= b < a + 8,
        ;
    } else {
        assert(b / 8 == a / 8 && a / 8 * 8 == a) by (nonlinear_arith)
            requires
                a % 8 == 0,
                a <= b < a + 8,
        ;
        assert(b / 128 == a / 128) by (nonlinear_arith)
            requires
                b / 8 == a / 8,
        ;
        assert(b >= 128);
    }
}

/// Round trip: an encoded key, followed by anything, parses back to its tag
/// and wire type, consuming exactly the key's bytes.
pub proof fn lemma_parse_key_of_key_wire(tag: u32, w: WireType, rest: Seq<u8>)
    requires
        1 <= tag <= MAX_TAG,
    ensures
        parse_key(key_wire(tag, w) + rest) == Some((tag, w, key_len_spec(tag))),
{
    let k = (8 * tag + wire_type_num(w)) as u64;
    lemma_parse_varint_of_varint(k, rest);
    lemma_key_wire_len(tag, w);
    lemma_varint_wire_len(k);
    assert(k / 8 == tag as int && k % 8 == wire_type_num(w)) by (nonlinear_arith)
        requires
            k == 8 * tag + wire_type_num(w),
            0 <= wire_type_num(w) < 8,
            tag >= 1,
    ;
    assert(varint_len(k) == key_len_spec(tag)) by {
        lemma_varint_len_same_group((8 * tag) as u64, k);
    }
}

/// A parsed key consumed at least one byte and no more than all of them.
pub proof fn lemma_parse_key_bounds(s: Seq<u8>)
    ensures
        parse_key(s) matches Some(p) ==> 1 <= p.2 <= s.len(),
{
    lemma_parse_varint_bounds(s);
}

/// Reading a key looks only at the bytes it consumes.
pub proof fn lemma_parse_key_extend(s: Seq<u8>, ext: Seq<u8>)
    ensures
        parse_key(s) is Some ==> parse_key(s + ext) == parse_key(s),
{
    lemma_parse_varint_extend(s, ext);
}

/// How many bytes `encode_key` writes for a key with tag `tag`.
pub fn key_len(tag: u32) -> (n: usize)
    requires
        1 <= tag <= MAX_TAG,
    ensures
        n == key_len_spec(tag),
{
    encoded_len_varint(8 * tag as u64)
}

/// Appends the key that opens a field occurrence: `tag` paired with
/// `wire_type`.
pub fn encode_key(tag: u32, wire_type: WireType, buf: &mut WriteBuf)
    requires
        1 <= tag <= MAX_TAG,
        old(buf).space() >= key_wire(tag, wire_type).len(),
    ensures
        final(buf).cap() == old(buf).cap(),
        final(buf)@ == old(buf)@ + key_wire(tag, wire_type),
{
    let num: u64 = match wire_type {
        WireType::Varint => 0,
        WireType::SixtyFourBit => 1,
        WireType::LengthDelimited => 2,
        WireType::ThirtyTwoBit => 5,
    };
    proof {
        lemma_varint_wire_len((8 * tag + wire_type_num(wire_type)) as u64);
    }
    encode_varint(8 * (tag as u64) + num, buf);
}

/// Reads a field key from the front of `buf`, consuming its bytes on
/// success.
pub fn decode_key(buf: &mut ReadBuf) -> (r: Result<(u32, WireType), DecodeError>)
    ensures
        advances(*old(buf), *final(buf)),
        match parse_key(old(buf)@) {
            Some(p) => {
                &&& r == Ok::<(u32, WireType), DecodeError>((p.0, p.1))
                &&& final(buf)@ == old(buf)@.skip(p.2)
                &&& final(buf).pos() == old(buf).pos() + p.2
            },
            None => {
                &&& r is Err
                &&& match parse_varint(old(buf)@) {
                    None => r == Err::<(u32, WireType), DecodeError>(DecodeError::InvalidVarint)
                        && *final(buf) == *old(buf),
                    Some(p) => r == Err::<(u32, WireType), DecodeError>(DecodeError::InvalidKey)
                        && final(buf)@ == old(buf)@.skip(p.1),
                }
            },
        },
{
    match decode_varint(buf) {
        Err(e) => Err(e),
        Ok(v) => {
            let tag64 = v / 8;
            let wnum = v % 8;
            if tag64 < 1 || tag64 > MAX_TAG as u64 {
                return Err(DecodeError::InvalidKey);
            }
            let w = if wnum == 0 {
                WireType::Varint
            } else if wnum == 1 {
                WireType::SixtyFourBit
            } else if wnum == 2 {
                WireType::LengthDelimited
            } else if wnum == 5 {
                WireType::ThirtyTwoBit
            } else {
                return Err(DecodeError::InvalidKey);
            };
            Ok((tag64 as u32, w))
        },
    }
}

/// Tests the wire type a key carried against the one the field requires.
pub fn check_wire_type(expected: WireType, actual: WireType) -> (r: Result<(), DecodeError>)
    ensures
        expected == actual ==> r == Ok::<(), DecodeError>(()),
        expected != actual ==> r == Err::<(), DecodeError>(DecodeError::WireTypeMismatch),
{
    if expected == actual {
        Ok(())
    } else {
        Err(DecodeError::WireTypeMismatch)
    }
}

/// What reading a length-delimited frame from the front of `s` yields: the
/// payload and the number of bytes consumed (length prefix included);
/// nothing when the length varint is malformed or the declared payload
/// overruns `s`.
pub open spec fn parse_frame(s: Seq<u8>) -> Option<(Seq<u8>, int)> {
    match parse_varint(s) {
        None => None,
        Some((len, n)) => if len <= s.len() - n {
            Some((s.subrange(n, n + len), n + len))
        } else {
            None
        },
    }
}

/// Round trip: a payload behind its length prefix, followed by anything,
/// parses back to exactly the payload.
pub proof fn lemma_parse_frame_of_frame(payload: Seq<u8>, rest: Seq<u8>)
    requires
        payload.len() <= u64::MAX,
    ensures
        parse_frame(varint(payload.len() as u64) + payload + rest) == Some(
            (payload, varint_len(payload.len() as u64) + payload.len()),
        ),
{
    let lv = payload.len() as u64;
    let s = varint(lv) + payload + rest;
    assert(s =~= varint(lv) + (payload + rest));
    lemma_parse_varint_of_varint(lv, payload + rest);
    lemma_varint_wire_len(lv);
    let n = varint_len(lv);
    assert(s.subrange(n, n + lv) =~= payload);
}

/// A parsed frame consumed at least one byte and no more than all of them,
/// and its payload lies inside the consumed bytes.
pub proof fn lemma_parse_frame_bounds(s: Seq<u8>)
    ensures
        parse_frame(s) matches Some(p) ==> 1 <= p.1 <= s.len() && p.0.len() < p.1,
{
    lemma_parse_varint_bounds(s);
}

/// Reading a frame looks only at the bytes it consumes.
pub proof fn lemma_parse_frame_extend(s: Seq<u8>, ext: Seq<u8>)
    ensures
        parse_frame(s) is Some ==> parse_frame(s + ext) == parse_frame(s),
{
    lemma_parse_varint_extend(s, ext);
    lemma_parse_varint_bounds(s);
    if parse_frame(s) is Some {
        let (len, n) = parse_varint(s)->Some_0;
        assert((s + ext).subrange(n, n + len) =~= s.subrange(n, n + len));
    }
}

} // verus!
