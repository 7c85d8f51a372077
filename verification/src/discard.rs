//! A sink that counts bytes and keeps none of them.
use crate::sink::{Sink, SinkFailure};
use vstd::prelude::*;

verus! {

/// Where a seek starts from.
#[derive(Clone, Copy, Debug, PartialEq, Eq, Structural)]
pub enum SeekFrom {
    /// An offset from the start.
    Start(u64),
    /// An offset from the furthest position reached so far.
    End(i64),
    /// An offset from the current position.
    Current(i64),
}

/// A seek asked for a position below zero or above `u64::MAX`.
#[derive(Clone, Copy, Debug, PartialEq, Eq, Structural)]
pub struct InvalidSeek;

/// A write-only stream that remembers only where it is and how far it has been.
pub struct Discard {
    pos: u64,
    max_pos: u64,
}

impl Discard {
    /// The current position.
    pub closed spec fn pos(&self) -> u64 {
        self.pos
    }

    /// The furthest position ever reached: the length of the stream.
    pub closed spec fn max_pos(&self) -> u64 {
        self.max_pos
    }

    /// The position never lies beyond the length.
    #[verifier::type_invariant]
    spec fn reached(&self) -> bool {
        self.pos <= self.max_pos
    }

    /// An empty stream at position zero.
    pub fn new() -> (d: Discard)
        ensures
            d.pos() == 0,
            d.max_pos() == 0,
    {
        Discard { pos: 0, max_pos: 0 }
    }

    /// The current position.
    pub fn position(&self) -> (p: u64)
        ensures
            p == self.pos(),
    {
        self.pos
    }

    /// The length of the stream.
    pub fn len(&self) -> (n: u64)
        ensures
            n == self.max_pos(),
            self.pos() <= n,
    {
        proof {
            use_type_invariant(self);
        }
        self.max_pos
    }

    /// The position that a seek to `target` asks for.
    pub open spec fn seek_target(&self, target: SeekFrom) -> int {
        match target {
            SeekFrom::Start(count) => count as int,
            SeekFrom::End(count) => self.max_pos() + count,
            SeekFrom::Current(count) => self.pos() + count,
        }
    }

    /// Takes `buf.len()` bytes: the position moves on by that much, and the
    /// length follows it. Fails, changing nothing, where the position would
    /// pass `u64::MAX`.
    pub fn write(&mut self, buf: &[u8]) -> (r: Result<usize, SinkFailure>)
        ensures
            match r {
                Ok(n) => {
                    &&& n == buf@.len()
                    &&& final(self).pos() == old(self).pos() + buf@.len()
                    &&& final(self).max_pos() == vstd::math::max(
                        old(self).max_pos() as int,
                        final(self).pos() as int,
                    )
                },
                Err(_) => {
                    &&& old(self).pos() + buf@.len() > u64::MAX
                    &&& *final(self) == *old(self)
                },
            },
    {
        proof {
            use_type_invariant(&*self);
        }
        let n = buf.len();
        if n as u128 > (u64::MAX - self.pos) as u128 {
            return Err(SinkFailure);
        }
        let pos = self.pos + n as u64;
        let max_pos = if self.max_pos < pos { pos } else { self.max_pos };
        *self = Discard { pos, max_pos };
        Ok(n)
    }

    /// Does nothing: there is nothing buffered.
    pub fn flush(&mut self)
        ensures
            *final(self) == *old(self),
    {
    }

    /// Moves to the position that `target` asks for and returns it; the
    /// length follows where the position passes it. Fails, changing nothing,
    /// where that position is negative or above `u64::MAX`.
    pub fn seek(&mut self, target: SeekFrom) -> (r: Result<u64, InvalidSeek>)
        ensures
            match r {
                Ok(p) => {
                    &&& p == old(self).seek_target(target)
                    &&& final(self).pos() == p
                    &&& final(self).max_pos() == vstd::math::max(
                        old(self).max_pos() as int,
                        p as int,
                    )
                },
                Err(_) => {
                    &&& !(0 <= old(self).seek_target(target) <= u64::MAX)
                    &&& *final(self) == *old(self)
                },
            },
    {
        proof {
            use_type_invariant(&*self);
        }
        let (base_pos, offset): (u64, i64) = match target {
            SeekFrom::Start(count) => (count, 0),
            SeekFrom::End(count) => (self.max_pos, count),
            SeekFrom::Current(count) => (self.pos, count),
        };
        let pos = match checked_add_signed(base_pos, offset) {
            Some(ok) => ok,
            None => {
                return Err(InvalidSeek);
            },
        };
        let max_pos = if self.max_pos < pos { pos } else { self.max_pos };
        *self = Discard { pos, max_pos };
        Ok(pos)
    }
}

/// `base + offset`, where that is a `u64`.
pub fn checked_add_signed(base: u64, offset: i64) -> (r: Option<u64>)
    ensures
        match r {
            Some(sum) => sum == base + offset,
            None => !(0 <= base + offset <= u64::MAX),
        },
{
    if offset >= 0 {
        let up = offset as u64;
        if up > u64::MAX - base {
            None
        } else {
            Some(base + up)
        }
    } else {
        let down = (-(offset + 1)) as u64 + 1;
        if down > base {
            None
        } else {
            Some(base - down)
        }
    }
}

impl Default for Discard {
    fn default() -> (d: Discard)
        ensures
            d.pos() == 0,
            d.max_pos() == 0,
    {
        Discard::new()
    }
}

impl Sink for Discard {
    open spec fn offset(&self) -> nat {
        self.pos() as nat
    }

    open spec fn extends(&self, before: &Self, bytes: Seq<u8>) -> bool {
        &&& self.pos() == before.pos() + bytes.len()
        &&& bytes.len() == 0 ==> self.max_pos() == before.max_pos()
        &&& bytes.len() > 0 ==> self.max_pos() == vstd::math::max(
            before.max_pos() as int,
            self.pos() as int,
        )
    }

    open spec fn takes(&self, n: nat) -> bool {
        self.pos() + n <= u64::MAX
    }

    proof fn lemma_takes_nothing(&self) {
    }

    proof fn lemma_takes_less(&self, n: nat, more: nat) {
    }

    proof fn lemma_extends_takes(&self, before: &Self, bytes: Seq<u8>, n: nat) {
    }

    proof fn lemma_extends_by_nothing(&self) {
    }

    proof fn lemma_extends_twice(&self, mid: &Self, before: &Self, a: Seq<u8>, b: Seq<u8>) {
    }

    proof fn lemma_extends_position(&self, before: &Self, bytes: Seq<u8>) {
    }

    fn write_all(&mut self, bytes: &[u8]) -> (r: Result<(), SinkFailure>) {
        proof {
            use_type_invariant(&*self);
        }
        match self.write(bytes) {
            Ok(_) => Ok(()),
            Err(e) => Err(e),
        }
    }

    fn stream_position(&self) -> (pos: u64) {
        self.pos
    }
}

} // verus!
