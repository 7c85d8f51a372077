//! Where produced bytes go: an in-memory buffer that keeps them, or a counting
//! sink that drops them.
use vstd::prelude::*;

verus! {

/// A sink refused bytes because its position could not advance that far.
#[derive(Clone, Copy, Debug, PartialEq, Eq, Structural)]
pub struct SinkFailure;

/// Something that takes bytes at its current position and moves on.
pub trait Sink: Sized {
    /// The byte offset at which the next write lands.
    spec fn offset(&self) -> nat;

    /// `self` is what `before` turns into when `bytes` are written to it.
    spec fn extends(&self, before: &Self, bytes: Seq<u8>) -> bool;

    /// Whether the sink has room for `n` more bytes.
    spec fn takes(&self, n: nat) -> bool;

    /// Every sink has room for nothing.
    proof fn lemma_takes_nothing(&self)
        ensures
            self.takes(0),
    ;

    /// A sink with room for some bytes has room for fewer.
    proof fn lemma_takes_less(&self, n: nat, more: nat)
        requires
            self.takes(n + more),
        ensures
            self.takes(n),
    ;

    /// What a sink has room for after a write is what it had room for before,
    /// less what was written.
    proof fn lemma_extends_takes(&self, before: &Self, bytes: Seq<u8>, n: nat)
        requires
            self.extends(before, bytes),
        ensures
            self.takes(n) <==> before.takes(bytes.len() + n),
    ;

    /// Writing nothing leaves a sink as it is.
    proof fn lemma_extends_by_nothing(&self)
        ensures
            self.extends(self, Seq::<u8>::empty()),
    ;

    /// Two writes in a row are one write of both byte strings.
    proof fn lemma_extends_twice(&self, mid: &Self, before: &Self, a: Seq<u8>, b: Seq<u8>)
        requires
            mid.extends(before, a),
            self.extends(mid, b),
        ensures
            self.extends(before, a + b),
    ;

    /// A write moves the position by the number of bytes written.
    proof fn lemma_extends_position(&self, before: &Self, bytes: Seq<u8>)
        requires
            self.extends(before, bytes),
        ensures
            self.offset() == before.offset() + bytes.len(),
    ;

    /// Writes all of `bytes`, or nothing where the sink has no room for them.
    fn write_all(&mut self, bytes: &[u8]) -> (r: Result<(), SinkFailure>)
        ensures
            r is Ok <==> old(self).takes(bytes@.len()),
            r is Ok ==> final(self).extends(old(self), bytes@),
            r is Err ==> *final(self) == *old(self),
    ;

    /// The position as a number.
    fn stream_position(&self) -> (pos: u64)
        ensures
            pos == self.offset(),
    ;
}

impl Sink for Vec<u8> {
    open spec fn offset(&self) -> nat {
        self@.len()
    }

    open spec fn extends(&self, before: &Self, bytes: Seq<u8>) -> bool {
        self@ == before@ + bytes
    }

    open spec fn takes(&self, n: nat) -> bool {
        true
    }

    proof fn lemma_takes_nothing(&self) {
    }

    proof fn lemma_takes_less(&self, n: nat, more: nat) {
    }

    proof fn lemma_extends_takes(&self, before: &Self, bytes: Seq<u8>, n: nat) {
    }

    proof fn lemma_extends_by_nothing(&self) {
    }

    proof fn lemma_extends_twice(&self, mid: &Self, before: &Self, a: Seq<u8>, b: Seq<u8>) {
        assert(self@ =~= before@ + (a + b));
    }

    proof fn lemma_extends_position(&self, before: &Self, bytes: Seq<u8>) {
    }

    fn write_all(&mut self, bytes: &[u8]) -> (r: Result<(), SinkFailure>) {
        self.extend_from_slice(bytes);
        assert(self@ =~= old(self)@ + bytes@);
        Ok(())
    }

    fn stream_position(&self) -> (pos: u64) {
        self.len() as u64
    }
}

} // verus!
