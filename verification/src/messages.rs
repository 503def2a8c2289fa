//! Concrete message types instantiating the message contract.
//!
//! [`Empty`] is the trivial message: no fields, zero wire bytes.
//! [`Composite`] has one embedded message field tagged 1 and one repeated
//! message field tagged 2, the two field shapes this crate adapts; its
//! merge loop is the schema-agnostic decode skeleton every message type
//! follows.

use crate::buffer::{advances, ReadBuf, WriteBuf};
use crate::encoding::{
    decode_key, key_wire, lemma_parse_key_bounds, lemma_parse_key_extend,
    lemma_parse_key_of_key_wire, parse_key, WireType,
};
use crate::error::{DecodeError, EncodeError};
use crate::field::{
    encode_field, encode_repeated, encoded_len_field, encoded_len_repeated, field_wire,
    lemma_merge_field_spec_bounds, lemma_merge_field_spec_extend, lemma_merge_field_spec_of_frame,
    lemma_merge_repeated_spec_bounds, lemma_merge_repeated_spec_extend, merge_field,
    merge_field_spec, merge_repeated, merge_repeated_spec, message_frame, repeated_wire, views_of,
};
use crate::message::Message;
use vstd::prelude::*;

verus! {

/// The message with no fields.  Its wire form is empty, and merging accepts
/// only an empty field stream: any key at all names a tag it does not
/// define.
#[derive(Clone, Copy, Debug, PartialEq, Eq, Structural)]
pub struct Empty {}

impl View for Empty {
    type V = Empty;

    open spec fn view(&self) -> Empty {
        *self
    }
}

impl Default for Empty {
    /// The starting value: the only value there is.
    fn default() -> (m: Empty)
        ensures
            m@ == Empty::init_spec(),
    {
        Empty {  }
    }
}

impl Message for Empty {
    open spec fn init_spec() -> Empty {
        Empty {  }
    }

    open spec fn wire_spec(v: Empty) -> Seq<u8> {
        Seq::empty()
    }

    open spec fn merge_spec(v: Empty, data: Seq<u8>) -> Option<Empty> {
        if data.len() == 0 {
            Some(v)
        } else {
            None
        }
    }

    proof fn lemma_round_trip(v: Empty) {
    }

    fn initial() -> (m: Empty) {
        Empty {  }
    }

    fn encoded_len(&self) -> (n: usize) {
        0
    }

    fn encode(&self, buf: &mut WriteBuf) -> (r: Result<(), EncodeError>) {
        proof {
            assert(buf@ + Empty::wire_spec(self@) =~= buf@);
        }
        Ok(())
    }

    fn merge(&mut self, buf: &mut ReadBuf) -> (r: Result<(), DecodeError>) {
        let rem = buf.remaining();
        if rem == 0 {
            Ok(())
        } else {
            Err(DecodeError::UnknownTag)
        }
    }
}

/// A message with one embedded message field tagged 1 and one repeated
/// message field tagged 2.  An absent embedded field writes nothing; a
/// present one writes a tagged frame even when it equals the default, so
/// presence survives a round trip.
#[derive(Debug)]
pub struct Composite {
    /// The embedded message field, tag 1.
    pub child: Option<Empty>,
    /// The repeated message field, tag 2, in wire order.
    pub children: Vec<Empty>,
}

/// The model of a [`Composite`]: the same fields with the collection
/// abstracted to a sequence.
#[verifier::ext_equal]
pub struct CompositeView {
    /// The embedded message field, tag 1.
    pub child: Option<Empty>,
    /// The repeated message field, tag 2, in wire order.
    pub children: Seq<Empty>,
}

/// The wire bytes of the embedded field: nothing when absent, one tagged
/// occurrence when present.
pub open spec fn child_wire(c: Option<Empty>) -> Seq<u8> {
    match c {
        None => Seq::empty(),
        Some(e) => field_wire::<Empty>(e, 1),
    }
}

/// The canonical wire bytes of a composite model: the embedded field, then
/// every repeated occurrence in order.
pub open spec fn composite_wire(v: CompositeView) -> Seq<u8> {
    child_wire(v.child) + repeated_wire::<Empty>(v.children, 2)
}

/// Folding a field stream into a composite model, occurrence by
/// occurrence: tag 1 merges into the embedded field (starting it from the
/// default when absent), tag 2 appends one element, any other tag is
/// unknown and rejected.
pub open spec fn composite_merged(c: CompositeView, data: Seq<u8>) -> Option<CompositeView>
    decreases data.len(),
    via composite_merged_decreases
{
    if data.len() == 0 {
        Some(c)
    } else {
        match parse_key(data) {
            None => None,
            Some((tag, w, n)) => {
                if tag == 1 {
                    let base = match c.child {
                        None => Empty::init_spec(),
                        Some(e) => e,
                    };
                    match merge_field_spec::<Empty>(base, w, data.skip(n)) {
                        None => None,
                        Some((e2, k)) => composite_merged(
                            CompositeView { child: Some(e2), ..c },
                            data.skip(n + k),
                        ),
                    }
                } else if tag == 2 {
                    match merge_repeated_spec::<Empty>(c.children, w, data.skip(n)) {
                        None => None,
                        Some((s2, k)) => composite_merged(
                            CompositeView { children: s2, ..c },
                            data.skip(n + k),
                        ),
                    }
                } else {
                    None
                }
            },
        }
    }
}

#[via_fn]
proof fn composite_merged_decreases(c: CompositeView, data: Seq<u8>) {
    if data.len() > 0 {
        lemma_parse_key_bounds(data);
        if let Some((tag, w, n)) = parse_key(data) {
            let base = match c.child {
                None => Empty::init_spec(),
                Some(e) => e,
            };
            lemma_merge_field_spec_bounds::<Empty>(base, w, data.skip(n));
            lemma_merge_repeated_spec_bounds::<Empty>(c.children, w, data.skip(n));
        }
    }
}

impl View for Composite {
    type V = CompositeView;

    open spec fn view(&self) -> CompositeView {
        CompositeView { child: self.child, children: self.children@ }
    }
}

impl Default for Composite {
    /// The starting value: both fields empty.
    fn default() -> (m: Composite)
        ensures
            m@ == Composite::init_spec(),
    {
        let m = Composite { child: None, children: Vec::new() };
        proof {
            assert(m@ =~= Composite::init_spec());
        }
        m
    }
}

impl Message for Composite {
    open spec fn init_spec() -> CompositeView {
        CompositeView { child: None, children: Seq::empty() }
    }

    open spec fn wire_spec(v: CompositeView) -> Seq<u8> {
        composite_wire(v)
    }

    open spec fn merge_spec(v: CompositeView, data: Seq<u8>) -> Option<CompositeView> {
        composite_merged(v, data)
    }

    proof fn lemma_round_trip(v: CompositeView) {
        lemma_composite_round_trip(v);
    }

    fn initial() -> (m: Composite) {
        let m = Composite { child: None, children: Vec::new() };
        proof {
            assert(m@ =~= Composite::init_spec());
        }
        m
    }

    fn encoded_len(&self) -> (n: usize) {
        proof {
            assert(views_of::<Empty>(self.children@) =~= self@.children);
        }
        let n1 = match &self.child {
            None => 0,
            Some(e) => encoded_len_field::<Empty>(e, 1),
        };
        let n2 = encoded_len_repeated::<Empty>(&self.children, 2);
        n1 + n2
    }

    fn encode(&self, buf: &mut WriteBuf) -> (r: Result<(), EncodeError>) {
        let len = self.encoded_len();
        let rem = buf.remaining_mut();
        if rem < len {
            return Err(EncodeError::InsufficientCapacity);
        }
        proof {
            assert(views_of::<Empty>(self.children@) =~= self@.children);
        }
        match &self.child {
            None => (),
            Some(e) => encode_field::<Empty>(e, 1, buf),
        }
        encode_repeated::<Empty>(&self.children, 2, buf);
        proof {
            assert(buf@ =~= old(buf)@ + Composite::wire_spec(self@));
        }
        Ok(())
    }

    fn merge(&mut self, buf: &mut ReadBuf) -> (r: Result<(), DecodeError>) {
        let mut rem = buf.remaining();
        while rem > 0
            invariant
                rem == buf@.len(),
                buf.end() == buf.pos() + rem,
                advances(*old(buf), *buf),
                composite_merged(old(self)@, old(buf)@) == composite_merged(self@, buf@),
            decreases buf@.len(),
        {
            let ghost snap: CompositeView = self@;
            let ghost data: Seq<u8> = buf@;
            let (tag, w) = match decode_key(buf) {
                Ok(p) => p,
                Err(e) => {
                    return Err(e);
                },
            };
            let ghost n = parse_key(data)->Some_0.2;
            proof {
                lemma_parse_key_bounds(data);
            }
            if tag == 1 {
                if self.child.is_none() {
                    self.child = Some(Empty::initial());
                }
                let ghost base = match snap.child {
                    None => Empty::init_spec(),
                    Some(e) => e,
                };
                let r1 = match &mut self.child {
                    Some(e) => merge_field::<Empty>(e, 1, w, buf),
                    None => {
                        proof {
                            assert(false);
                        }
                        Err(DecodeError::UnknownTag)
                    },
                };
                match r1 {
                    Err(e) => {
                        return Err(e);
                    },
                    Ok(()) => {},
                }
                proof {
                    lemma_merge_field_spec_bounds::<Empty>(base, w, data.skip(n));
                    let k = merge_field_spec::<Empty>(base, w, data.skip(n))->Some_0.1;
                    assert(buf@ =~= data.skip(n + k));
                    assert(self@ =~= (CompositeView {
                        child: Some(merge_field_spec::<Empty>(base, w, data.skip(n))->Some_0.0),
                        ..snap
                    }));
                }
            } else if tag == 2 {
                match merge_repeated::<Empty>(&mut self.children, 2, w, buf) {
                    Err(e) => {
                        return Err(e);
                    },
                    Ok(()) => {},
                }
                proof {
                    assert(views_of::<Empty>(snap.children) =~= snap.children);
                    lemma_merge_repeated_spec_bounds::<Empty>(snap.children, w, data.skip(n));
                    let k = merge_repeated_spec::<Empty>(snap.children, w, data.skip(n))->Some_0.1;
                    assert(buf@ =~= data.skip(n + k));
                    assert(views_of::<Empty>(self.children@) =~= merge_repeated_spec::<Empty>(
                        snap.children,
                        w,
                        data.skip(n),
                    )->Some_0.0);
                    assert(self@ =~= (CompositeView {
                        children: merge_repeated_spec::<Empty>(snap.children, w, data.skip(n))
                            ->Some_0.0,
                        ..snap
                    }));
                }
            } else {
                return Err(DecodeError::UnknownTag);
            }
            rem = buf.remaining();
        }
        Ok(())
    }
}

impl PartialEq for Composite {
    /// Field-wise equality: same embedded-field presence and value, same
    /// repeated elements in the same order.
    fn eq(&self, other: &Composite) -> (r: bool) {
        let child_eq = match (&self.child, &other.child) {
            (None, None) => true,
            (Some(a), Some(b)) => *a == *b,
            _ => false,
        };
        if !child_eq {
            return false;
        }
        if self.children.len() != other.children.len() {
            return false;
        }
        proof {
            assert(self.children@ =~= other.children@);
            assert(self@ =~= other@);
        }
        true
    }
}

impl vstd::std_specs::cmp::PartialEqSpecImpl for Composite {
    open spec fn obeys_eq_spec() -> bool {
        true
    }

    open spec fn eq_spec(&self, other: &Composite) -> bool {
        self@ == other@
    }
}

/// One present embedded-field occurrence merges from the starting model to
/// exactly that field value, consuming the whole occurrence.
proof fn lemma_composite_merge_child(c: CompositeView, e: Empty, rest: Seq<u8>)
    requires
        c.child is None,
    ensures
        composite_merged(c, field_wire::<Empty>(e, 1) + rest) == composite_merged(
            CompositeView { child: Some(e), ..c },
            rest,
        ),
{
    let fw = field_wire::<Empty>(e, 1);
    let mf = message_frame::<Empty>(e);
    lemma_parse_key_of_key_wire(1, WireType::LengthDelimited, mf + rest);
    assert(fw + rest =~= key_wire(1, WireType::LengthDelimited) + (mf + rest));
    let n = parse_key(fw + rest)->Some_0.2;
    assert((fw + rest).skip(n) =~= mf + rest);
    lemma_merge_field_spec_of_frame::<Empty>(e, rest);
    lemma_parse_key_bounds(fw + rest);
    assert((fw + rest).skip(n + mf.len()) =~= rest);
}

/// Merging the occurrence bytes of a whole sequence appends the sequence
/// to the repeated field and touches nothing else.
proof fn lemma_composite_merge_repeated(c: CompositeView, s: Seq<Empty>)
    ensures
        composite_merged(c, repeated_wire::<Empty>(s, 2)) == Some(
            CompositeView { children: c.children + s, ..c },
        ),
    decreases s.len(),
{
    let rw = repeated_wire::<Empty>(s, 2);
    if s.len() == 0 {
        assert(c.children + s =~= c.children);
        assert(c =~= (CompositeView { children: c.children + s, ..c }));
    } else {
        let mf = message_frame::<Empty>(s[0]);
        let tail = repeated_wire::<Empty>(s.skip(1), 2);
        lemma_parse_key_of_key_wire(2, WireType::LengthDelimited, mf + tail);
        assert(rw =~= key_wire(2, WireType::LengthDelimited) + (mf + tail));
        let n = parse_key(rw)->Some_0.2;
        assert(rw.skip(n) =~= mf + tail);
        lemma_merge_field_spec_of_frame::<Empty>(s[0], tail);
        lemma_parse_key_bounds(rw);
        assert(rw.skip(n + mf.len()) =~= tail);
        let c1 = CompositeView { children: c.children.push(s[0]), ..c };
        lemma_composite_merge_repeated(c1, s.skip(1));
        assert(c.children.push(s[0]) + s.skip(1) =~= c.children + s);
        assert((CompositeView { children: c1.children + s.skip(1), ..c1 }) =~= (CompositeView {
            children: c.children + s,
            ..c
        }));
    }
}

/// The round-trip law for [`Composite`]: its canonical bytes, merged from
/// the starting model, reconstruct the value.
proof fn lemma_composite_round_trip(v: CompositeView)
    ensures
        composite_merged(Composite::init_spec(), composite_wire(v)) == Some(v),
{
    let init = Composite::init_spec();
    let cw = child_wire(v.child);
    let rw = repeated_wire::<Empty>(v.children, 2);
    match v.child {
        None => {
            assert(cw + rw =~= rw);
            lemma_composite_merge_repeated(init, v.children);
            assert((CompositeView { children: init.children + v.children, ..init }) =~= v);
        },
        Some(e) => {
            lemma_composite_merge_child(init, e, rw);
            assert(cw + rw == field_wire::<Empty>(e, 1) + rw);
            let mid = CompositeView { child: Some(e), ..init };
            lemma_composite_merge_repeated(mid, v.children);
            assert((CompositeView { children: mid.children + v.children, ..mid }) =~= v);
        },
    }
}

/// Composition of merges: a field stream that merges cleanly, followed by
/// more bytes, merges as the clean part and then the remainder — merging
/// frame by frame and merging a concatenated buffer agree.
pub proof fn lemma_composite_merge_compose(c: CompositeView, d1: Seq<u8>, d2: Seq<u8>)
    ensures
        composite_merged(c, d1) matches Some(c1) ==> composite_merged(c, d1 + d2)
            == composite_merged(c1, d2),
    decreases d1.len(),
{
    if composite_merged(c, d1) matches Some(c1) {
        if d1.len() == 0 {
            assert(d1 + d2 =~= d2);
        } else {
            let (tag, w, n) = parse_key(d1)->Some_0;
            lemma_parse_key_bounds(d1);
            lemma_parse_key_extend(d1, d2);
            assert((d1 + d2).skip(n) =~= d1.skip(n) + d2);
            if tag == 1 {
                let base = match c.child {
                    None => Empty::init_spec(),
                    Some(e) => e,
                };
                let (e2, k) = merge_field_spec::<Empty>(base, w, d1.skip(n))->Some_0;
                lemma_merge_field_spec_bounds::<Empty>(base, w, d1.skip(n));
                lemma_merge_field_spec_extend::<Empty>(base, w, d1.skip(n), d2);
                assert((d1 + d2).skip(n + k) =~= d1.skip(n + k) + d2);
                lemma_composite_merge_compose(
                    CompositeView { child: Some(e2), ..c },
                    d1.skip(n + k),
                    d2,
                );
            } else {
                let (s2, k) = merge_repeated_spec::<Empty>(c.children, w, d1.skip(n))->Some_0;
                lemma_merge_repeated_spec_bounds::<Empty>(c.children, w, d1.skip(n));
                lemma_merge_repeated_spec_extend::<Empty>(c.children, w, d1.skip(n), d2);
                assert((d1 + d2).skip(n + k) =~= d1.skip(n + k) + d2);
                lemma_composite_merge_compose(
                    CompositeView { children: s2, ..c },
                    d1.skip(n + k),
                    d2,
                );
            }
        }
    }
}

} // verus!
