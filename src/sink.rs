//! The destination that a table is written into.

use vstd::endian::{endianness, Endian};
use vstd::prelude::*;

verus! {

/// Why a write into a [`ByteSink`] was refused.
#[derive(Debug, Clone, Copy, PartialEq, Eq, Structural)]
pub enum WriteError {
    /// The destination has no room left for the bytes handed to it.
    Full,
}

/// The four bytes of `w`, least significant first for `Endian::Little`.
pub open spec fn word_bytes(w: u32, order: Endian) -> Seq<u8> {
    let b0 = (w as int % 0x100) as u8;
    let b1 = (w as int / 0x100 % 0x100) as u8;
    let b2 = (w as int / 0x1_0000 % 0x100) as u8;
    let b3 = (w as int / 0x100_0000 % 0x100) as u8;
    match order {
        Endian::Little => seq![b0, b1, b2, b3],
        Endian::Big => seq![b3, b2, b1, b0],
    }
}

/// Relies on `u32::to_ne_bytes`: the four bytes of the word in the byte
/// order of the machine that runs the code.
#[verifier::external_body]
fn native_word_bytes(w: u32) -> (r: [u8; 4])
    ensures
        r@ == word_bytes(w, endianness()),
{
    w.to_ne_bytes()
}

/// A fixed-capacity, in-memory byte destination that is filled front to back.
pub struct ByteSink {
    buf: Vec<u8>,
    capacity: usize,
}

impl View for ByteSink {
    type V = Seq<u8>;

    /// The bytes written so far.
    closed spec fn view(&self) -> Seq<u8> {
        self.buf@
    }
}

/// What a write of `bytes` into a sink that stood at `before` leaves behind:
/// it succeeds exactly when the bytes fit in the room left, and then appends
/// them all; when it fails, the sink holds what it held before and, after it,
/// at most a part of `bytes`. The capacity never changes.
pub open spec fn wrote(before: ByteSink, after: ByteSink, bytes: Seq<u8>, r: Result<(), WriteError>) -> bool {
    &&& after.capacity() == before.capacity()
    &&& (r is Ok <==> bytes.len() <= before.room())
    &&& r is Ok ==> after@ == before@ + bytes
    &&& r is Err ==> {
        &&& before@.len() <= after@.len() <= before@.len() + bytes.len()
        &&& after@ == (before@ + bytes).take(after@.len() as int)
    }
}

/// A write of `a` that failed is also a failed write of `a` followed by more.
pub proof fn lemma_wrote_failed_prefix(before: ByteSink, after: ByteSink, a: Seq<u8>, b: Seq<u8>, r: Result<(), WriteError>)
    requires
        wrote(before, after, a, r),
        r is Err,
    ensures
        wrote(before, after, a + b, r),
{
    assert((before@ + (a + b)).take(after@.len() as int) =~= (before@ + a).take(after@.len() as int));
}

/// A successful write of `a` followed by a write of `b` is a write of `a + b`
/// with the outcome of the second.
pub proof fn lemma_wrote_then(
    s0: ByteSink,
    s1: ByteSink,
    s2: ByteSink,
    a: Seq<u8>,
    b: Seq<u8>,
    r1: Result<(), WriteError>,
    r2: Result<(), WriteError>,
)
    requires
        wrote(s0, s1, a, r1),
        r1 is Ok,
        wrote(s1, s2, b, r2),
    ensures
        wrote(s0, s2, a + b, r2),
{
    assert(s0@ + (a + b) =~= s1@ + b);
}

impl ByteSink {
    /// The number of bytes the sink still accepts.
    pub closed spec fn room(&self) -> nat {
        if self.buf.len() <= self.capacity {
            (self.capacity - self.buf.len()) as nat
        } else {
            0
        }
    }

    /// The number of bytes the sink can hold in all.
    pub open spec fn capacity(&self) -> nat {
        self@.len() + self.room()
    }

    /// An empty sink with room for `capacity` bytes.
    pub fn new(capacity: usize) -> (r: ByteSink)
        ensures
            r@ == Seq::<u8>::empty(),
            r.room() == capacity,
    {
        ByteSink { buf: Vec::new(), capacity }
    }

    /// The number of bytes that can still be written.
    pub fn remaining(&self) -> (r: usize)
        ensures
            r == self.room(),
    {
        if self.buf.len() <= self.capacity {
            self.capacity - self.buf.len()
        } else {
            0
        }
    }

    /// Appends all of `bytes`, or, when they do not fit, writes nothing and
    /// fails.
    pub fn write_all(&mut self, bytes: &[u8]) -> (r: Result<(), WriteError>)
        ensures
            wrote(*old(self), *final(self), bytes@, r),
            r is Err ==> final(self)@ == old(self)@,
    {
        if bytes.len() <= self.remaining() {
            self.buf.extend_from_slice(bytes);
            assert(self.buf@ =~= old(self).buf@ + bytes@);
            Ok(())
        } else {
            assert(self.buf@ =~= (self.buf@ + bytes@).take(self.buf@.len() as int));
            Err(WriteError::Full)
        }
    }

    /// Writes `w` as four bytes in the byte order of the machine.
    pub fn write_word(&mut self, w: u32) -> (r: Result<(), WriteError>)
        ensures
            wrote(*old(self), *final(self), word_bytes(w, endianness()), r),
    {
        let b = native_word_bytes(w);
        self.write_all(b.as_slice())
    }

    /// The bytes written so far.
    pub fn as_bytes(&self) -> (r: &[u8])
        ensures
            r@ == self@,
    {
        self.buf.as_slice()
    }

    /// Gives up the sink and returns the bytes written into it.
    pub fn into_bytes(self) -> (r: Vec<u8>)
        ensures
            r@ == self@,
    {
        self.buf
    }
}

} // verus!
