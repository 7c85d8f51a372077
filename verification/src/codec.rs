//! The capability contracts that every compression algorithm satisfies, and
//! the algorithms themselves.
use vstd::prelude::*;

pub mod brotli;
pub mod copy;
pub mod lz4;
pub mod lzav;
pub mod lzma;
pub mod snappy;
pub mod zstd;

verus! {

/// The opaque condition a codec reports when it refuses an operation.
#[derive(Clone, Copy, Debug, PartialEq, Eq, Structural)]
pub struct CodecFailure;

/// What the outside libraries report failures with.
#[verifier::external_type_specification]
#[verifier::external_body]
pub struct ExIoError(std::io::Error);

/// What a codec answers once its library has answered: the count that the
/// library gave, or the one failure that stands for whatever error it gave.
pub fn count_or_failure<E>(outcome: Result<usize, E>) -> (r: Result<usize, CodecFailure>)
    ensures
        match outcome {
            Ok(n) => r == Ok::<usize, CodecFailure>(n),
            Err(_) => r == Err::<usize, CodecFailure>(CodecFailure),
        },
{
    match outcome {
        Ok(n) => Ok(n),
        Err(_) => Err(CodecFailure),
    }
}

/// Compresses one chunk at a time into a buffer that the caller provides.
pub trait Encoder: Sized {
    /// Whether `out` is among the byte strings that `compress` may hand back
    /// for `src`. An encoder that says nothing of its output admits every
    /// byte string.
    open spec fn may_produce(&self, src: Seq<u8>, out: Seq<u8>) -> bool {
        true
    }

    /// The bound that `compressed_len_bound` is sure to give for an input
    /// of `uncompressed_len` bytes. An encoder that promises no bound has
    /// none here.
    open spec fn sure_bound(&self, uncompressed_len: nat) -> Option<nat> {
        None
    }

    /// Whether `compress` is sure to succeed on `src` with `capacity` bytes
    /// of room. An encoder that promises no success is sure of none.
    open spec fn surely_compresses(&self, src: Seq<u8>, capacity: nat) -> bool {
        false
    }

    /// An upper bound on what `compress` writes for an input of
    /// `uncompressed_len` bytes, or a failure where the algorithm takes no
    /// input of that length.
    fn compressed_len_bound(&mut self, uncompressed_len: usize) -> (bound: Result<
        usize,
        CodecFailure,
    >)
        ensures
            old(self).sure_bound(uncompressed_len as nat) matches Some(b) ==> bound matches Ok(
                v,
            ) && v == b,
            forall|s: Seq<u8>, o: Seq<u8>| #[trigger]
                final(self).may_produce(s, o) == old(self).may_produce(s, o),
            forall|n: nat| #[trigger] final(self).sure_bound(n) == old(self).sure_bound(n),
            forall|s: Seq<u8>, c: nat| #[trigger]
                final(self).surely_compresses(s, c) == old(self).surely_compresses(s, c),
    ;

    /// Compresses all of `src` into the front of `dest` and returns how many
    /// bytes that took.
    fn compress(&mut self, src: &[u8], dest: &mut [u8]) -> (r: Result<usize, CodecFailure>)
        ensures
            final(dest)@.len() == old(dest)@.len(),
            r matches Ok(n) ==> n <= old(dest)@.len() && old(self).may_produce(
                src@,
                final(dest)@.subrange(0, n as int),
            ),
            old(self).surely_compresses(src@, old(dest)@.len()) ==> r is Ok,
            forall|s: Seq<u8>, o: Seq<u8>| #[trigger]
                final(self).may_produce(s, o) == old(self).may_produce(s, o),
            forall|n: nat| #[trigger] final(self).sure_bound(n) == old(self).sure_bound(n),
            forall|s: Seq<u8>, c: nat| #[trigger]
                final(self).surely_compresses(s, c) == old(self).surely_compresses(s, c),
    ;
}

/// Decompresses one payload at a time into a buffer that the caller provides.
pub trait Decoder: Sized {
    /// Whether `out` is among the byte strings that `decompress` may hand
    /// back for `src` when given `capacity` bytes of room. A decoder that says
    /// nothing of its output admits every byte string.
    open spec fn may_decode(&self, src: Seq<u8>, capacity: nat, out: Seq<u8>) -> bool {
        true
    }

    /// Whether `decompress` is sure to succeed on `src` with `capacity`
    /// bytes of room. A decoder that promises no success is sure of none.
    open spec fn surely_decodes(&self, src: Seq<u8>, capacity: nat) -> bool {
        false
    }

    /// Decompresses `src` into the front of `dest` and returns how many bytes
    /// came out.
    fn decompress(&mut self, src: &[u8], dest: &mut [u8]) -> (r: Result<usize, CodecFailure>)
        ensures
            final(dest)@.len() == old(dest)@.len(),
            r matches Ok(n) ==> n <= old(dest)@.len() && old(self).may_decode(
                src@,
                old(dest)@.len(),
                final(dest)@.subrange(0, n as int),
            ),
            old(self).surely_decodes(src@, old(dest)@.len()) ==> r is Ok,
            forall|s: Seq<u8>, c: nat, o: Seq<u8>| #[trigger]
                final(self).may_decode(s, c, o) == old(self).may_decode(s, c, o),
            forall|s: Seq<u8>, c: nat| #[trigger]
                final(self).surely_decodes(s, c) == old(self).surely_decodes(s, c),
    ;
}

/// Two encoders admit the same outputs for every input, and promise alike.
pub open spec fn same_encoder<E: Encoder>(a: &E, b: &E) -> bool {
    &&& forall|src: Seq<u8>, out: Seq<u8>| #[trigger]
        a.may_produce(src, out) == b.may_produce(src, out)
    &&& forall|n: nat| #[trigger] a.sure_bound(n) == b.sure_bound(n)
    &&& forall|src: Seq<u8>, capacity: nat| #[trigger]
        a.surely_compresses(src, capacity) == b.surely_compresses(src, capacity)
}

/// Two decoders decode every payload alike, and promise alike.
pub open spec fn same_decoder<D: Decoder>(a: &D, b: &D) -> bool {
    &&& forall|src: Seq<u8>, capacity: nat, out: Seq<u8>| #[trigger]
        a.may_decode(src, capacity, out) == b.may_decode(src, capacity, out)
    &&& forall|src: Seq<u8>, capacity: nat| #[trigger]
        a.surely_decodes(src, capacity) == b.surely_decodes(src, capacity)
}

} // verus!
