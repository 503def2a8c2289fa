//! Byte cursors the codec runs over.
//!
//! [`ReadBuf`] is a bounded readable cursor: a byte sequence, a position, and
//! a readable limit.  Restricting the limit yields the exact-length sub-view
//! that length-delimited decoding hands to a nested merge, so the callee can
//! read no further than the declared frame.  [`WriteBuf`] is a
//! capacity-checked writable sink: it reports its remaining room before any
//! write is attempted.

use vstd::prelude::*;

verus! {

/// A readable byte cursor.  Its view `@` is the sequence of bytes still
/// readable: the underlying bytes between the position and the limit.
pub struct ReadBuf {
    data: Vec<u8>,
    pos: usize,
    end: usize,
}

/// `b` is `a` after reading: the underlying bytes and the readable limit are
/// unchanged and the position has not moved backwards.
pub open spec fn advances(a: ReadBuf, b: ReadBuf) -> bool {
    &&& b.all() == a.all()
    &&& b.end() == a.end()
    &&& a.pos() <= b.pos()
}

impl ReadBuf {
    #[verifier::type_invariant]
    spec fn wf(self) -> bool {
        self.pos <= self.end <= self.data@.len()
    }

    /// All underlying bytes, read or not, inside or beyond the limit.
    pub closed spec fn all(self) -> Seq<u8> {
        self.data@
    }

    /// How many underlying bytes have been passed over.
    pub closed spec fn pos(self) -> int {
        self.pos as int
    }

    /// The index just past the last readable byte.
    pub closed spec fn end(self) -> int {
        self.end as int
    }

    /// A cursor over all of `data`, positioned at its start.
    pub fn new(data: Vec<u8>) -> (b: ReadBuf)
        ensures
            b.all() == data@,
            b.pos() == 0,
            b.end() == data@.len(),
            b@ == data@,
    {
        let end = data.len();
        let b = ReadBuf { data, pos: 0, end };
        proof {
            assert(b@ =~= b.all());
        }
        b
    }

    /// How many bytes are still readable.  The ensures also place the view
    /// inside the underlying bytes, so that callers pairing
    /// [`ReadBuf::restrict`] with [`ReadBuf::restore`] can relate the views
    /// before and after.
    pub fn remaining(&self) -> (n: usize)
        ensures
            n == self@.len(),
            0 <= self.pos() <= self.end() <= self.all().len(),
            self.end() == self.pos() + n,
            self@ == self.all().subrange(self.pos(), self.end()),
    {
        proof {
            use_type_invariant(self);
        }
        self.end - self.pos
    }

    /// The readable byte `i` places ahead of the position, without advancing.
    pub fn peek(&self, i: usize) -> (b: u8)
        requires
            i < self@.len(),
        ensures
            b == self@[i as int],
    {
        proof {
            use_type_invariant(self);
        }
        self.data[self.pos + i]
    }

    /// Passes over the next `n` readable bytes.
    pub fn advance(&mut self, n: usize)
        requires
            n <= old(self)@.len(),
        ensures
            final(self).all() == old(self).all(),
            final(self).end() == old(self).end(),
            final(self).pos() == old(self).pos() + n,
            final(self)@ == old(self)@.skip(n as int),
    {
        proof {
            use_type_invariant(&*self);
        }
        self.pos = self.pos + n;
        proof {
            assert(self@ =~= old(self)@.skip(n as int));
        }
    }

    /// Restricts the readable limit to the next `n` bytes, returning the
    /// previous limit so that [`ReadBuf::restore`] can put it back.
    pub fn restrict(&mut self, n: usize) -> (prev: usize)
        requires
            n <= old(self)@.len(),
        ensures
            final(self).all() == old(self).all(),
            final(self).pos() == old(self).pos(),
            final(self).end() == old(self).pos() + n,
            final(self)@ == old(self)@.take(n as int),
            final(self).end() <= prev <= final(self).all().len(),
            prev == old(self).end(),
    {
        proof {
            use_type_invariant(&*self);
        }
        let prev = self.end;
        self.end = self.pos + n;
        proof {
            assert(self@ =~= old(self)@.take(n as int));
        }
        prev
    }

    /// Widens the readable limit back to `prev`.
    pub fn restore(&mut self, prev: usize)
        requires
            old(self).end() <= prev <= old(self).all().len(),
        ensures
            final(self).all() == old(self).all(),
            final(self).pos() == old(self).pos(),
            final(self).end() == prev,
            final(self)@ == old(self).all().subrange(old(self).pos(), prev as int),
    {
        proof {
            use_type_invariant(&*self);
        }
        self.end = prev;
    }
}

impl View for ReadBuf {
    type V = Seq<u8>;

    closed spec fn view(&self) -> Seq<u8> {
        self.data@.subrange(self.pos as int, self.end as int)
    }
}

/// A writable byte sink with a fixed capacity.  Its view `@` is the sequence
/// of bytes written so far.
pub struct WriteBuf {
    data: Vec<u8>,
    cap: usize,
}

impl WriteBuf {
    /// The fixed capacity the sink was created with.
    pub closed spec fn cap(self) -> int {
        self.cap as int
    }

    /// How many more bytes the sink can take.
    pub open spec fn space(self) -> int {
        if self@.len() <= self.cap() {
            self.cap() - self@.len()
        } else {
            0
        }
    }

    /// An empty sink that can take `cap` bytes.
    pub fn new(cap: usize) -> (b: WriteBuf)
        ensures
            b@ == Seq::<u8>::empty(),
            b.cap() == cap,
    {
        let b = WriteBuf { data: Vec::new(), cap };
        proof {
            assert(b@ =~= Seq::<u8>::empty());
        }
        b
    }

    /// How many more bytes the sink can take.
    pub fn remaining_mut(&self) -> (n: usize)
        ensures
            n == self.space(),
    {
        if self.data.len() <= self.cap {
            self.cap - self.data.len()
        } else {
            0
        }
    }

    /// Appends one byte.
    pub fn put_u8(&mut self, b: u8)
        requires
            old(self).space() >= 1,
        ensures
            final(self).cap() == old(self).cap(),
            final(self)@ == old(self)@.push(b),
    {
        self.data.push(b);
    }

    /// How many bytes have been written.
    pub fn written(&self) -> (n: usize)
        ensures
            n == self@.len(),
    {
        self.data.len()
    }

    /// Gives up the sink, yielding the bytes written.
    pub fn into_vec(self) -> (v: Vec<u8>)
        ensures
            v@ == self@,
    {
        self.data
    }
}

impl View for WriteBuf {
    type V = Seq<u8>;

    closed spec fn view(&self) -> Seq<u8> {
        self.data@
    }
}

} // verus!
