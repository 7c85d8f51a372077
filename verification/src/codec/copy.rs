//! The pass-through codec: what goes in comes out.
use crate::codec::{CodecFailure, Decoder, Encoder};
use crate::frame::{frames_bytes, is_framed, parse_prefix, Frame};
use crate::roundtrip::{
    bound_is_sound, inverts, lemma_chunks_concat, lemma_round_trip_inverse, pair_is_sure,
};
use crate::stream::{chunks, concat, decodes_frames, encodes_chunks};
use vstd::prelude::*;

verus! {

/// Stores every chunk as it is.
pub struct Copy;

/// The bound of the pass-through encoder: the input's own length.
pub open spec fn copy_len_bound(uncompressed_len: nat) -> nat {
    uncompressed_len
}

/// Copies `src` to the front of `dest`, or fails, leaving `dest` alone, where
/// `dest` is too short.
pub fn copy_prefix(src: &[u8], dest: &mut [u8]) -> (r: Result<usize, CodecFailure>)
    ensures
        match r {
            Ok(n) => n == src@.len() <= old(dest)@.len() && final(dest)@ == src@ + old(
                dest,
            )@.subrange(n as int, old(dest)@.len() as int),
            Err(_) => src@.len() > old(dest)@.len() && final(dest)@ == old(dest)@,
        },
{
    if src.len() > dest.len() {
        return Err(CodecFailure);
    }
    let mut i: usize = 0;
    while i < src.len()
        invariant
            i <= src@.len() <= dest@.len(),
            dest@.len() == old(dest)@.len(),
            forall|k: int| 0 <= k < i ==> dest@[k] == src@[k],
            forall|k: int| i <= k < dest@.len() ==> dest@[k] == old(dest)@[k],
        decreases src@.len() - i,
    {
        dest[i] = src[i];
        i += 1;
    }
    Ok(src.len())
}

impl Encoder for Copy {
    open spec fn may_produce(&self, src: Seq<u8>, out: Seq<u8>) -> bool {
        out == src
    }

    open spec fn sure_bound(&self, uncompressed_len: nat) -> Option<nat> {
        Some(copy_len_bound(uncompressed_len))
    }

    open spec fn surely_compresses(&self, src: Seq<u8>, capacity: nat) -> bool {
        src.len() <= capacity
    }

    /// The input's own length: nothing is added.
    fn compressed_len_bound(&mut self, uncompressed_len: usize) -> (bound: Result<
        usize,
        CodecFailure,
    >)
        ensures
            bound matches Ok(b) && b == copy_len_bound(uncompressed_len as nat),
    {
        Ok(uncompressed_len)
    }

    /// Copies `src` to the front of `dest`; fails, leaving `dest` alone,
    /// where `dest` is shorter than `src`.
    fn compress(&mut self, src: &[u8], dest: &mut [u8]) -> (r: Result<usize, CodecFailure>)
        ensures
            match r {
                Ok(n) => n == src@.len() <= old(dest)@.len() && final(dest)@ == src@ + old(
                    dest,
                )@.subrange(n as int, old(dest)@.len() as int),
                Err(_) => src@.len() > old(dest)@.len() && final(dest)@ == old(dest)@,
            },
    {
        let r = copy_prefix(src, dest);
        assert(r matches Ok(n) ==> dest@.subrange(0, n as int) =~= src@);
        r
    }
}

impl Decoder for Copy {
    open spec fn may_decode(&self, src: Seq<u8>, capacity: nat, out: Seq<u8>) -> bool {
        out == src
    }

    open spec fn surely_decodes(&self, src: Seq<u8>, capacity: nat) -> bool {
        src.len() <= capacity
    }

    /// Copies `src` to the front of `dest`; fails, leaving `dest` alone,
    /// where `dest` is shorter than `src`.
    fn decompress(&mut self, src: &[u8], dest: &mut [u8]) -> (r: Result<usize, CodecFailure>)
        ensures
            match r {
                Ok(n) => n == src@.len() <= old(dest)@.len() && final(dest)@ == src@ + old(
                    dest,
                )@.subrange(n as int, old(dest)@.len() as int),
                Err(_) => src@.len() > old(dest)@.len() && final(dest)@ == old(dest)@,
            },
    {
        let r = copy_prefix(src, dest);
        assert(r matches Ok(n) ==> dest@.subrange(0, n as int) =~= src@);
        r
    }
}

/// The pass-through decoder undoes the pass-through encoder.
pub proof fn lemma_copy_inverts()
    ensures
        inverts(&Copy, &Copy),
{
}

/// The pass-through pair is sure of itself on every input, with any chunk
/// size that fits a header field: writing and reading back with it cannot
/// fail but for want of room in the output.
pub proof fn lemma_copy_is_sure(input: Seq<u8>, chunk_size: nat)
    requires
        chunk_size <= u32::MAX,
    ensures
        pair_is_sure(&Copy, &Copy, input, chunk_size),
{
    if chunk_size > 0 {
        lemma_chunks_concat(input, chunk_size);
    }
}

/// Round trip of the pass-through codec, with nothing assumed: the frames
/// that the writer makes of any input are read back whole, and what the
/// reader makes of them is that input.
pub proof fn lemma_copy_round_trip(
    input: Seq<u8>,
    chunk_size: nat,
    frames: Seq<Frame>,
    outs: Seq<Seq<u8>>,
)
    requires
        chunk_size > 0,
        encodes_chunks(&Copy, chunks(input, chunk_size), frames),
        decodes_frames(&Copy, frames, outs),
    ensures
        is_framed(frames_bytes(frames)),
        parse_prefix(frames_bytes(frames)) == frames,
        concat(outs) == input,
{
    lemma_round_trip_inverse(&Copy, &Copy, input, chunk_size, frames, outs);
}

/// The pass-through decoder reads frames as sound only where every payload
/// is as long as its frame declares: a header whose compressed length was
/// changed without the uncompressed length is never read as sound.
pub proof fn lemma_copy_lengths_agree(frames: Seq<Frame>, outs: Seq<Seq<u8>>)
    requires
        decodes_frames(&Copy, frames, outs),
    ensures
        forall|i: int|
            0 <= i < frames.len() ==> (#[trigger] frames[i]).payload.len()
                == frames[i].uncompressed_len,
{
    assert forall|i: int| 0 <= i < frames.len() implies (#[trigger] frames[i]).payload.len()
        == frames[i].uncompressed_len by {
        assert(outs[i].len() == frames[i].uncompressed_len);
    }
}

/// Bound soundness: whatever the pass-through encoder may produce for an
/// input is no longer than the bound that it gives for the input's length.
pub proof fn lemma_copy_bound_sound()
    ensures
        bound_is_sound(&Copy),
{
}

} // verus!
