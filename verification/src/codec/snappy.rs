//! Snappy in raw block mode.
use crate::codec::{count_or_failure, CodecFailure, Decoder, Encoder};
use snap::raw::Decoder as RawDecoder;
use snap::raw::Encoder as RawEncoder;
use snap::Error as SnapError;
use crate::frame::{frames_bytes, is_framed, parse_prefix, Frame};
use crate::roundtrip::{
    bound_is_sound, inverts, lemma_chunks_concat, lemma_round_trip_inverse, pair_is_sure,
};
use crate::stream::{chunks, concat, decodes_frames, encodes_chunks};
use vstd::prelude::*;

verus! {

/// A raw Snappy encoder, which keeps its hash tables between calls.
#[verifier::external_type_specification]
#[verifier::external_body]
pub struct ExSnapEncoder(RawEncoder);

/// A raw Snappy decoder.
#[verifier::external_type_specification]
#[verifier::external_body]
pub struct ExSnapDecoder(RawDecoder);

/// What Snappy reports failures with.
#[verifier::external_type_specification]
#[verifier::external_body]
pub struct ExSnapError(SnapError);

/// What decoding the raw Snappy block `src` into `capacity` bytes of room
/// comes to: the decoded bytes, or `None` where the block is damaged or asks
/// for more room. The decoder works on the two buffers alone, so that this
/// depends on nothing else.
pub uninterp spec fn snappy_decoded(src: Seq<u8>, capacity: int) -> Option<Seq<u8>>;

/// What `snap::raw::max_compress_len` computes: `32 + n + n / 6`, or zero
/// where the input or that sum is above `u32::MAX`.
pub open spec fn snappy_len_bound(n: int) -> int {
    if n > u32::MAX || 32 + n + n / 6 > u32::MAX {
        0
    } else {
        32 + n + n / 6
    }
}

/// Whether Snappy compresses an input of `src_len` bytes into `capacity`
/// bytes of room: it has a bound for the input, and the room is no less.
pub open spec fn snappy_takes(src_len: nat, capacity: nat) -> bool {
    snappy_len_bound(src_len as int) != 0 && capacity >= snappy_len_bound(src_len as int)
}

/// `out` is a block that Snappy may write for `src`: it is no longer than
/// the bound for the input, and decoding it into room for the input's length
/// gives the input back.
pub open spec fn snappy_encodes(src: Seq<u8>, out: Seq<u8>) -> bool {
    &&& out.len() <= snappy_len_bound(src.len() as int)
    &&& snappy_decoded(out, src.len() as int) == Some(src)
}

/// `snap::raw::Encoder::new`.
#[verifier::external_body]
fn snap_encoder_new() -> RawEncoder {
    RawEncoder::new()
}

/// `snap::raw::Decoder::new`.
#[verifier::external_body]
fn snap_decoder_new() -> RawDecoder {
    RawDecoder::new()
}

/// `snap::raw::max_compress_len`, as its source computes it.
#[verifier::external_body]
fn snap_max_compress_len(input_len: usize) -> (bound: usize)
    ensures
        bound == snappy_len_bound(input_len as int),
{
    snap::raw::max_compress_len(input_len)
}

/// `snap::raw::Encoder::compress`: its source refuses, before it writes
/// anything, an input for which `max_compress_len` is zero and a `dest`
/// shorter than `max_compress_len` of the input's length, and nothing else;
/// on success the count is the number of bytes written to the front of
/// `dest`, which are a block within the bound that Snappy decodes back to
/// `src`.
#[verifier::external_body]
fn snap_compress(encoder: &mut RawEncoder, src: &[u8], dest: &mut [u8]) -> (r: Result<
    usize,
    SnapError,
>)
    ensures
        final(dest)@.len() == old(dest)@.len(),
        r is Ok <==> snappy_takes(src@.len(), old(dest)@.len()),
        r matches Ok(n) ==> n <= old(dest)@.len() && snappy_encodes(
            src@,
            final(dest)@.subrange(0, n as int),
        ),
        r is Err ==> final(dest)@ == old(dest)@,
{
    encoder.compress(src, dest)
}

/// `snap::raw::Decoder::decompress`: on success the front of `dest` holds the
/// decoded block, of the length returned; an error where the block is damaged
/// or `dest` is shorter than the length that the block declares.
#[verifier::external_body]
fn snap_decompress(decoder: &mut RawDecoder, src: &[u8], dest: &mut [u8]) -> (r: Result<
    usize,
    SnapError,
>)
    ensures
        final(dest)@.len() == old(dest)@.len(),
        match r {
            Ok(n) => n <= old(dest)@.len() && snappy_decoded(src@, old(dest)@.len() as int)
                == Some(final(dest)@.subrange(0, n as int)),
            Err(_) => snappy_decoded(src@, old(dest)@.len() as int) is None,
        },
{
    decoder.decompress(src, dest)
}

/// Compresses to raw Snappy blocks. Snappy has a single level.
pub struct SnappyCompressor {
    encoder: RawEncoder,
}

/// Decompresses raw Snappy blocks.
pub struct SnappyDecompressor {
    decoder: RawDecoder,
}

impl SnappyCompressor {
    /// A fresh encoder.
    pub fn new() -> SnappyCompressor {
        SnappyCompressor { encoder: snap_encoder_new() }
    }
}

impl SnappyDecompressor {
    /// A fresh decoder.
    pub fn new() -> SnappyDecompressor {
        SnappyDecompressor { decoder: snap_decoder_new() }
    }
}

impl Encoder for SnappyCompressor {
    open spec fn may_produce(&self, src: Seq<u8>, out: Seq<u8>) -> bool {
        snappy_encodes(src, out)
    }

    open spec fn sure_bound(&self, uncompressed_len: nat) -> Option<nat> {
        if snappy_len_bound(uncompressed_len as int) != 0 {
            Some(snappy_len_bound(uncompressed_len as int) as nat)
        } else {
            None
        }
    }

    open spec fn surely_compresses(&self, src: Seq<u8>, capacity: nat) -> bool {
        snappy_takes(src.len(), capacity)
    }

    /// Fails where Snappy's own bound is zero, its sign for an input that is
    /// too long.
    fn compressed_len_bound(&mut self, uncompressed_len: usize) -> (bound: Result<
        usize,
        CodecFailure,
    >)
        ensures
            match bound {
                Ok(b) => b == snappy_len_bound(uncompressed_len as int) && b > 0,
                Err(_) => snappy_len_bound(uncompressed_len as int) == 0,
            },
    {
        let bound = snap_max_compress_len(uncompressed_len);
        if bound == 0 {
            Err(CodecFailure)
        } else {
            Ok(bound)
        }
    }

    /// Compresses `src` into the front of `dest`: what is written is a
    /// block within the bound that decodes back to `src`. Succeeds exactly
    /// where Snappy has a bound for the length of `src` and `dest` is no
    /// shorter than that bound; where it fails, `dest` is left alone.
    fn compress(&mut self, src: &[u8], dest: &mut [u8]) -> (r: Result<usize, CodecFailure>)
        ensures
            r is Ok <==> snappy_takes(src@.len(), old(dest)@.len()),
            r is Err ==> final(dest)@ == old(dest)@,
    {
        count_or_failure(snap_compress(&mut self.encoder, src, dest))
    }
}

impl Decoder for SnappyDecompressor {
    open spec fn may_decode(&self, src: Seq<u8>, capacity: nat, out: Seq<u8>) -> bool {
        snappy_decoded(src, capacity as int) == Some(out)
    }

    open spec fn surely_decodes(&self, src: Seq<u8>, capacity: nat) -> bool {
        snappy_decoded(src, capacity as int) is Some
    }

    /// Decodes the block `src` into the front of `dest`, with all of `dest`
    /// as room. Succeeds exactly where the block decodes into that much
    /// room; the count is then the length of what it decodes to.
    fn decompress(&mut self, src: &[u8], dest: &mut [u8]) -> (r: Result<usize, CodecFailure>)
        ensures
            r is Ok <==> old(self).surely_decodes(src@, old(dest)@.len()),
    {
        count_or_failure(snap_decompress(&mut self.decoder, src, dest))
    }
}

/// Round trip: the Snappy decoder undoes the Snappy encoder.
pub proof fn lemma_snappy_inverts(encoder: &SnappyCompressor, decoder: &SnappyDecompressor)
    ensures
        inverts(decoder, encoder),
{
}

/// Bound soundness: what the Snappy encoder writes is within its bound.
pub proof fn lemma_snappy_bound_sound(encoder: &SnappyCompressor)
    ensures
        bound_is_sound(encoder),
{
}

/// The Snappy pair is sure of itself on every input, with any chunk size
/// that Snappy has a bound for.
pub proof fn lemma_snappy_is_sure(
    encoder: &SnappyCompressor,
    decoder: &SnappyDecompressor,
    input: Seq<u8>,
    chunk_size: nat,
)
    requires
        chunk_size > 0,
        snappy_len_bound(chunk_size as int) != 0,
    ensures
        pair_is_sure(encoder, decoder, input, chunk_size),
{
    lemma_chunks_concat(input, chunk_size);
}

/// Round trip through the container: the frames that the writer makes of
/// any input with a Snappy encoder are read back whole by a Snappy decoder, and
/// what the reader makes of them is that input.
pub proof fn lemma_snappy_round_trip(
    encoder: &SnappyCompressor,
    decoder: &SnappyDecompressor,
    input: Seq<u8>,
    chunk_size: nat,
    frames: Seq<Frame>,
    outs: Seq<Seq<u8>>,
)
    requires
        chunk_size > 0,
        encodes_chunks(encoder, chunks(input, chunk_size), frames),
        decodes_frames(decoder, frames, outs),
    ensures
        is_framed(frames_bytes(frames)),
        parse_prefix(frames_bytes(frames)) == frames,
        concat(outs) == input,
{
    lemma_snappy_inverts(encoder, decoder);
    lemma_round_trip_inverse(encoder, decoder, input, chunk_size, frames, outs);
}

} // verus!
