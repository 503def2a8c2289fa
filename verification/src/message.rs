//! The message contract: what a structured record type implements to be
//! serialized as a self-delimiting unit.
//!
//! A message type carries a mathematical model (its [`View`]): a starting
//! model for decode, the canonical wire bytes of each model value, and the
//! result of folding a whole field stream into a model value (the merge).
//! The executable operations are specified against that model, and every
//! implementation must prove the round-trip law: merging a value's canonical
//! bytes into the starting model reconstructs the value.
//!
//! Nesting needs no special case per depth: an embedded message is its
//! payload behind a varint length prefix, so the length-delimited variants
//! here are all that a containing message's fields delegate to.

use crate::buffer::{advances, ReadBuf, WriteBuf};
use crate::encoding::{
    encode_varint, encoded_len_varint, decode_varint, lemma_parse_frame_of_frame,
    lemma_varint_wire_len, parse_frame, parse_varint, varint, varint_len,
};
use crate::error::{DecodeError, EncodeError};
use vstd::prelude::*;

verus! {

/// A record type that can be written as Protocol Buffers wire bytes and
/// read back, alone or embedded in another message.  Message types are
/// shareable and transferable across threads; no operation here
/// coordinates between threads.
pub trait Message: View + Sized + Send + Sync {
    /// The model a decode starts from: the value with every field empty.
    spec fn init_spec() -> Self::V;

    /// The canonical wire bytes of a model value, without a length prefix.
    spec fn wire_spec(v: Self::V) -> Seq<u8>;

    /// Folding an entire field stream `data` into the model value `v`:
    /// the merged model, or nothing when the stream is malformed for this
    /// message type.  Merging accumulates — repeated fields append — rather
    /// than resetting state.
    spec fn merge_spec(v: Self::V, data: Seq<u8>) -> Option<Self::V>;

    /// The round-trip law every message type proves: merging a value's
    /// canonical wire bytes into the starting model reconstructs the value.
    proof fn lemma_round_trip(v: Self::V)
        ensures
            Self::merge_spec(Self::init_spec(), Self::wire_spec(v)) == Some(v),
    ;

    /// The value whose model decode starts from.
    fn initial() -> (m: Self)
        ensures
            m@ == Self::init_spec(),
    ;

    /// The exact number of bytes [`Message::encode`] would write, computed
    /// without writing them.
    fn encoded_len(&self) -> (n: usize)
        requires
            Self::wire_spec(self@).len() <= usize::MAX,
        ensures
            n == Self::wire_spec(self@).len(),
    ;

    /// Writes the full, non-length-prefixed wire bytes of `self`.  Succeeds
    /// exactly when the buffer has room for them, and leaves the buffer
    /// untouched otherwise.
    fn encode(&self, buf: &mut WriteBuf) -> (r: Result<(), EncodeError>)
        requires
            Self::wire_spec(self@).len() <= usize::MAX,
        ensures
            r is Ok <==> old(buf).space() >= Self::wire_spec(self@).len(),
            r is Ok ==> final(buf)@ == old(buf)@ + Self::wire_spec(self@) && final(buf).cap()
                == old(buf).cap(),
            r is Err ==> *final(buf) == *old(buf) && r == Err::<(), EncodeError>(
                EncodeError::InsufficientCapacity,
            ),
    ;

    /// Decodes the entire remaining buffer as a stream of tagged fields and
    /// folds each into `self`.  Succeeds exactly when the whole stream is
    /// well formed, consuming everything; after an error `self` must be
    /// treated as unreliable.
    fn merge(&mut self, buf: &mut ReadBuf) -> (r: Result<(), DecodeError>)
        ensures
            advances(*old(buf), *final(buf)),
            r is Ok <==> Self::merge_spec(old(self)@, old(buf)@) is Some,
            r is Ok ==> Self::merge_spec(old(self)@, old(buf)@) == Some(final(self)@)
                && final(buf).pos() == final(buf).end(),
    ;

    /// Writes `self` behind a varint length prefix.  The capacity check
    /// covers the prefix and the payload together and happens strictly
    /// before any byte is written.
    fn encode_length_delimited(&self, buf: &mut WriteBuf) -> (r: Result<(), EncodeError>)
        requires
            Self::wire_spec(self@).len() <= usize::MAX,
        ensures
            r is Ok <==> old(buf).space() >= varint_len(Self::wire_spec(self@).len() as u64)
                + Self::wire_spec(self@).len(),
            r is Ok ==> final(buf)@ == old(buf)@ + varint(Self::wire_spec(self@).len() as u64)
                + Self::wire_spec(self@) && final(buf).cap() == old(buf).cap(),
            r is Err ==> *final(buf) == *old(buf) && r == Err::<(), EncodeError>(
                EncodeError::InsufficientCapacity,
            ),
    {
        let len = self.encoded_len();
        let vlen = encoded_len_varint(len as u64);
        let rem = buf.remaining_mut();
        if rem < vlen || rem - vlen < len {
            return Err(EncodeError::InsufficientCapacity);
        }
        proof {
            lemma_varint_wire_len(len as u64);
        }
        encode_varint(len as u64, buf);
        self.encode(buf)
    }

    /// Constructs the starting value and merges the entire remaining buffer
    /// into it.
    fn decode(buf: &mut ReadBuf) -> (r: Result<Self, DecodeError>)
        ensures
            advances(*old(buf), *final(buf)),
            r is Ok <==> Self::merge_spec(Self::init_spec(), old(buf)@) is Some,
            r matches Ok(msg) ==> Self::merge_spec(Self::init_spec(), old(buf)@) == Some(msg@)
                && final(buf).pos() == final(buf).end(),
    {
        let mut m = Self::initial();
        match m.merge(buf) {
            Ok(()) => Ok(m),
            Err(e) => Err(e),
        }
    }

    /// Reads a varint length, rejects it with `BufferUnderflow` before
    /// touching any payload byte when it overruns the buffer, and otherwise
    /// merges exactly that many bytes into `self`, leaving the cursor just
    /// past the frame.
    fn merge_length_delimited(&mut self, buf: &mut ReadBuf) -> (r: Result<(), DecodeError>)
        ensures
            advances(*old(buf), *final(buf)),
            match parse_varint(old(buf)@) {
                None => r == Err::<(), DecodeError>(DecodeError::InvalidVarint) && *final(buf)
                    == *old(buf),
                Some(p) => {
                    if p.0 > old(buf)@.len() - p.1 {
                        &&& r == Err::<(), DecodeError>(DecodeError::BufferUnderflow)
                        &&& final(buf)@ == old(buf)@.skip(p.1)
                    } else {
                        let frame = old(buf)@.subrange(p.1, p.1 + p.0);
                        &&& (r is Ok <==> Self::merge_spec(old(self)@, frame) is Some)
                        &&& (r is Ok ==> Self::merge_spec(old(self)@, frame) == Some(
                            final(self)@,
                        ) && final(buf)@ == old(buf)@.skip(p.1 + p.0))
                    }
                },
            },
    {
        let ghost v0 = buf@;
        let len = match decode_varint(buf) {
            Ok(len) => len,
            Err(e) => return Err(e),
        };
        let ghost n = parse_varint(v0)->Some_0.1;
        let rem = buf.remaining();
        if len > rem as u64 {
            return Err(DecodeError::BufferUnderflow);
        }
        let ghost v1 = buf@;
        let prev = buf.restrict(len as usize);
        proof {
            crate::encoding::lemma_parse_varint_bounds(v0);
            assert(buf@ =~= v0.subrange(n, n + len));
        }
        let r = self.merge(buf);
        buf.restore(prev);
        proof {
            if r is Ok {
                assert(buf@ =~= v1.skip(len as int));
                assert(v1.skip(len as int) =~= v0.skip(n + len));
            }
        }
        r
    }

    /// Reads a varint length, applies the same underflow check as
    /// [`Message::merge_length_delimited`], and decodes exactly that many
    /// bytes as one new message, leaving bytes beyond the frame in the
    /// buffer.
    fn decode_length_delimited(buf: &mut ReadBuf) -> (r: Result<Self, DecodeError>)
        ensures
            advances(*old(buf), *final(buf)),
            match parse_varint(old(buf)@) {
                None => r == Err::<Self, DecodeError>(DecodeError::InvalidVarint) && *final(buf)
                    == *old(buf),
                Some(p) => {
                    if p.0 > old(buf)@.len() - p.1 {
                        &&& r == Err::<Self, DecodeError>(DecodeError::BufferUnderflow)
                        &&& final(buf)@ == old(buf)@.skip(p.1)
                    } else {
                        let frame = old(buf)@.subrange(p.1, p.1 + p.0);
                        &&& (r is Ok <==> Self::merge_spec(Self::init_spec(), frame) is Some)
                        &&& (r matches Ok(msg) ==> Self::merge_spec(Self::init_spec(), frame)
                            == Some(msg@) && final(buf)@ == old(buf)@.skip(p.1 + p.0))
                    }
                },
            },
    {
        let mut m = Self::initial();
        match m.merge_length_delimited(buf) {
            Ok(()) => Ok(m),
            Err(e) => Err(e),
        }
    }
}

/// Heap indirection is transparent: a boxed message satisfies the whole
/// contract by forwarding to the value it owns, so recursive or large
/// message types can stand behind indirection without a special case.
impl<M: Message> Message for Box<M> {
    open spec fn init_spec() -> M::V {
        M::init_spec()
    }

    open spec fn wire_spec(v: M::V) -> Seq<u8> {
        M::wire_spec(v)
    }

    open spec fn merge_spec(v: M::V, data: Seq<u8>) -> Option<M::V> {
        M::merge_spec(v, data)
    }

    proof fn lemma_round_trip(v: M::V) {
        M::lemma_round_trip(v);
    }

    fn initial() -> (m: Box<M>) {
        Box::new(M::initial())
    }

    fn encoded_len(&self) -> (n: usize) {
        (**self).encoded_len()
    }

    fn encode(&self, buf: &mut WriteBuf) -> (r: Result<(), EncodeError>) {
        (**self).encode(buf)
    }

    fn merge(&mut self, buf: &mut ReadBuf) -> (r: Result<(), DecodeError>) {
        (**self).merge(buf)
    }
}

/// Round trip through a length-delimited frame: a value's payload behind
/// its length prefix, followed by anything, parses back to exactly the
/// payload, and merging that payload from the starting model reconstructs
/// the value.  Together with the contract of
/// [`Message::decode_length_delimited`] this pins the framed round trip:
/// the frame is consumed exactly and the bytes after it are untouched.
pub proof fn lemma_frame_round_trip<M: Message>(v: M::V, rest: Seq<u8>)
    ensures
        M::wire_spec(v).len() <= u64::MAX ==> {
            let framed = varint(M::wire_spec(v).len() as u64) + M::wire_spec(v);
            &&& parse_frame(framed + rest) == Some((M::wire_spec(v), framed.len() as int))
            &&& M::merge_spec(M::init_spec(), M::wire_spec(v)) == Some(v)
        },
{
    if M::wire_spec(v).len() <= u64::MAX {
        let w = M::wire_spec(v);
        lemma_parse_frame_of_frame(w, rest);
        lemma_varint_wire_len(w.len() as u64);
        assert((varint(w.len() as u64) + w) + rest =~= varint(w.len() as u64) + w + rest);
        M::lemma_round_trip(v);
    }
}

} // verus!
