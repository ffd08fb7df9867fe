//! The byte source a decoder consumes: a buffer and a cursor.
use vstd::prelude::*;

use crate::Error;

verus! {

/// An in-memory byte source. Reading hands out the bytes in order;
/// the only way a read fails is that the buffer ends too early, and a
/// failed read leaves the cursor where it was.
pub struct Source {
    data: Vec<u8>,
    pos: usize,
}

impl Source {
    /// The cursor never leaves the buffer.
    #[verifier::type_invariant]
    pub closed spec fn inv(self) -> bool {
        self.pos <= self.data@.len()
    }

    /// The whole underlying buffer.
    pub closed spec fn bytes(&self) -> Seq<u8> {
        self.data@
    }

    /// The cursor: how many bytes have been consumed.
    pub closed spec fn pos(&self) -> int {
        self.pos as int
    }

    /// A source over a buffer, with the cursor at its start.
    pub fn new(data: Vec<u8>) -> (res: Self)
        ensures
            res.bytes() == data@,
            res.pos() == 0,
    {
        Source { data, pos: 0 }
    }

    /// How many bytes are left to read.
    pub fn remaining(&self) -> (res: usize)
        ensures
            res == self.bytes().len() - self.pos(),
            0 <= self.pos() <= self.bytes().len(),
    {
        proof {
            use_type_invariant(self);
        }
        self.data.len() - self.pos
    }

    /// Read exactly `n` bytes, or fail without moving the cursor.
    pub fn read_exact(&mut self, n: usize) -> (res: Result<Vec<u8>, Error>)
        ensures
            0 <= old(self).pos() <= old(self).bytes().len(),
            old(self).pos() <= final(self).pos() <= final(self).bytes().len(),
            final(self).bytes() == old(self).bytes(),
            old(self).pos() + n <= old(self).bytes().len() ==> (res matches Ok(v) && v@
                == old(self).bytes().subrange(old(self).pos(), old(self).pos() + n)
                && final(self).pos() == old(self).pos() + n),
            old(self).pos() + n > old(self).bytes().len() ==> (res == Err::<Vec<u8>, Error>(
                Error::IO,
            ) && final(self).pos() == old(self).pos()),
    {
        proof {
            use_type_invariant(&*self);
        }
        if n > self.data.len() - self.pos {
            return Err(Error::IO);
        }
        let mut out: Vec<u8> = Vec::new();
        let mut i: usize = 0;
        while i < n
            invariant
                self.inv(),
                i <= n,
                self.pos + n <= self.data@.len(),
                self.data@.len() <= usize::MAX,
                out@ == self.data@.subrange(self.pos as int, self.pos + i),
            decreases n - i,
        {
            out.push(self.data[self.pos + i]);
            proof {
                assert(out@ == self.data@.subrange(self.pos as int, self.pos + i + 1));
            }
            i = i + 1;
        }
        self.pos = self.pos + n;
        Ok(out)
    }

    /// Move the cursor back over bytes already consumed, so a
    /// multi-part read can fail atomically.
    pub(crate) fn rewind(&mut self, n: usize)
        requires
            n <= old(self).pos(),
        ensures
            old(self).pos() <= old(self).bytes().len(),
            final(self).bytes() == old(self).bytes(),
            final(self).pos() == old(self).pos() - n,
    {
        proof {
            use_type_invariant(&*self);
        }
        self.pos = self.pos - n;
    }

    /// Read one byte, or fail without moving the cursor.
    pub fn read_byte(&mut self) -> (res: Result<u8, Error>)
        ensures
            0 <= old(self).pos() <= old(self).bytes().len(),
            old(self).pos() <= final(self).pos() <= final(self).bytes().len(),
            final(self).bytes() == old(self).bytes(),
            old(self).pos() < old(self).bytes().len() ==> (res matches Ok(b) && b == old(self).bytes()[old(self).pos()] && final(self).pos() == old(self).pos() + 1),
            old(self).pos() >= old(self).bytes().len() ==> (res == Err::<u8, Error>(Error::IO)
                && final(self).pos() == old(self).pos()),
    {
        proof {
            use_type_invariant(&*self);
        }
        if self.pos >= self.data.len() {
            return Err(Error::IO);
        }
        let b = self.data[self.pos];
        self.pos = self.pos + 1;
        Ok(b)
    }
}

} // verus!
