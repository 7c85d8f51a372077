//! Where bytes come from: an in-memory reader that hands out a byte string
//! piece by piece.
use vstd::prelude::*;

verus! {

/// A source could not be read.
#[derive(Clone, Copy, Debug, PartialEq, Eq, Structural)]
pub struct SourceFailure;

/// Something that hands out bytes from front to back.
pub trait Source: Sized {
    /// The bytes that are still to be read.
    spec fn remaining(&self) -> Seq<u8>;

    /// Whether reading from this source cannot fail, now or later.
    spec fn never_fails(&self) -> bool;

    /// Moves as many of the remaining bytes as `buf` has room for to the
    /// front of `buf` and returns how many these were; zero only where
    /// nothing remains or `buf` is empty. Fails, changing nothing, only on a
    /// source that can fail.
    fn read(&mut self, buf: &mut [u8]) -> (r: Result<usize, SourceFailure>)
        ensures
            final(buf)@.len() == old(buf)@.len(),
            old(self).never_fails() ==> r is Ok,
            final(self).never_fails() == old(self).never_fails(),
            match r {
                Ok(n) => {
                    &&& n <= old(buf)@.len()
                    &&& n <= old(self).remaining().len()
                    &&& n == 0 ==> old(buf)@.len() == 0 || old(self).remaining().len() == 0
                    &&& final(buf)@.subrange(0, n as int) == old(self).remaining().subrange(
                        0,
                        n as int,
                    )
                    &&& final(buf)@.subrange(n as int, old(buf)@.len() as int) == old(
                        buf,
                    )@.subrange(n as int, old(buf)@.len() as int)
                    &&& final(self).remaining() == old(self).remaining().skip(n as int)
                },
                Err(_) => final(self).remaining() == old(self).remaining() && final(buf)@ == old(
                    buf,
                )@,
            },
    ;
}

/// Reads a borrowed byte string from front to back.
pub struct SliceSource<'a> {
    bytes: &'a [u8],
    pos: usize,
}

impl<'a> SliceSource<'a> {
    /// The byte string that this source reads.
    pub closed spec fn bytes(&self) -> Seq<u8> {
        self.bytes@
    }

    /// How many bytes have been read.
    pub closed spec fn pos(&self) -> nat {
        self.pos as nat
    }

    #[verifier::type_invariant]
    spec fn in_range(&self) -> bool {
        self.pos <= self.bytes@.len()
    }

    /// A source at the start of `bytes`.
    pub fn new(bytes: &'a [u8]) -> (s: SliceSource<'a>)
        ensures
            s.bytes() == bytes@,
            s.pos() == 0,
            s.remaining() == bytes@,
    {
        let s = SliceSource { bytes, pos: 0 };
        s
    }

    /// How many bytes have been read.
    pub fn position(&self) -> (p: usize)
        ensures
            p == self.pos(),
            p + self.remaining().len() == self.bytes().len(),
    {
        proof {
            use_type_invariant(self);
        }
        self.pos
    }
}

impl<'a> Source for SliceSource<'a> {
    closed spec fn remaining(&self) -> Seq<u8> {
        self.bytes@.skip(self.pos as int)
    }

    open spec fn never_fails(&self) -> bool {
        true
    }

    fn read(&mut self, buf: &mut [u8]) -> (r: Result<usize, SourceFailure>)
        ensures
            r is Ok,
            final(self).bytes() == old(self).bytes(),
    {
        proof {
            use_type_invariant(&*self);
        }
        let left = self.bytes.len() - self.pos;
        let n = if left <= buf.len() { left } else { buf.len() };
        let start = self.pos;
        let bytes = self.bytes;
        let mut i: usize = 0;
        while i < n
            invariant
                i <= n,
                n <= buf@.len(),
                start + n <= bytes@.len() <= usize::MAX,
                buf@.len() == old(buf)@.len(),
                forall|k: int| 0 <= k < i ==> buf@[k] == bytes@[start + k],
                forall|k: int| i <= k < buf@.len() ==> buf@[k] == old(buf)@[k],
            decreases n - i,
        {
            buf[i] = bytes[start + i];
            i += 1;
        }
        *self = SliceSource { bytes, pos: start + n };
        Ok(n)
    }
}

} // verus!
