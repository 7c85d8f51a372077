//! LZ4 block mode.
use crate::codec::{count_or_failure, CodecFailure, Decoder, Encoder};
use crate::frame::{frames_bytes, is_framed, parse_prefix, Frame};
use crate::roundtrip::{
    bound_is_sound, inverts, lemma_chunks_concat, lemma_round_trip_inverse, pair_is_sure,
};
use crate::stream::{chunks, concat, decodes_frames, encodes_chunks};
use vstd::prelude::*;

verus! {

/// The three tiers of LZ4 block compression.
#[derive(Clone, Copy, Debug, PartialEq, Eq, Structural)]
pub enum CompressionMode {
    /// High compression, with its level.
    HighCompression(i32),
    /// Fast compression, with its acceleration.
    Fast(i32),
    /// The default compression.
    Default,
}

/// The largest input that LZ4 takes.
pub const LZ4_MAX_INPUT_SIZE: usize = 0x7E00_0000;

/// What decoding the LZ4 block `src` into `capacity` bytes of room comes to:
/// the decoded bytes, or `None` where LZ4 refuses the block or the room. The
/// decoder works on the two buffers alone, so that this depends on nothing
/// else.
pub uninterp spec fn lz4_block_decoded(src: Seq<u8>, capacity: int) -> Option<Seq<u8>>;

/// The level from which on the high-compression tier runs LZ4's optimal
/// parser.
pub const LZ4HC_OPTIMAL_FROM: i32 = 10;

/// Whether LZ4 can be run at `mode` on an input of `src_len` bytes: its
/// optimal parser does not return from an empty input.
pub open spec fn lz4_runs(mode: CompressionMode, src_len: nat) -> bool {
    match mode {
        CompressionMode::HighCompression(level) => src_len > 0 || level < LZ4HC_OPTIMAL_FROM,
        _ => true,
    }
}

/// What `LZ4_COMPRESSBOUND` computes for an input of `n` bytes.
pub open spec fn lz4_len_bound(n: int) -> int {
    n + n / 255 + 16
}

/// `out` is a block that LZ4 may write for `src`: the input is one that LZ4
/// takes, the block is no longer than the bound for it, and decoding the
/// block into room for the input's length gives the input back.
pub open spec fn lz4_encodes(src: Seq<u8>, out: Seq<u8>) -> bool {
    &&& src.len() <= LZ4_MAX_INPUT_SIZE
    &&& out.len() <= lz4_len_bound(src.len() as int)
    &&& lz4_block_decoded(out, src.len() as int) == Some(src)
}

/// Whether LZ4 is sure to compress an input of `src_len` bytes into
/// `capacity` bytes of room: it takes the input, and the room is no less
/// than the bound for it and no more than LZ4 can be told of.
pub open spec fn lz4_takes(src_len: nat, capacity: nat) -> bool {
    &&& src_len <= LZ4_MAX_INPUT_SIZE
    &&& lz4_len_bound(src_len as int) <= capacity <= i32::MAX
}

/// `lz4::block::compress_bound`: the source computes `n + n / 255 + 16` for
/// an input of `n <= 0x7E000000` bytes, and reports an error for a longer one.
#[verifier::external_body]
fn lz4_compress_bound(uncompressed_size: usize) -> (r: Result<usize, std::io::Error>)
    ensures
        match r {
            Ok(bound) => uncompressed_size <= LZ4_MAX_INPUT_SIZE && bound == lz4_len_bound(
                uncompressed_size as int,
            ),
            Err(_) => uncompressed_size > LZ4_MAX_INPUT_SIZE,
        },
{
    lz4::block::compress_bound(uncompressed_size)
}

/// `lz4::block::compress_to_buffer` without a size prefix, on a buffer of
/// at most `i32::MAX` bytes, the longest it is documented for, and not on an
/// empty input at a level of the optimal parser, which crashes. On success the
/// count it returns is the number of bytes written to the front of `dest`;
/// these are a block within LZ4's worst-case bound, which LZ4 decodes back
/// to `src`. An input above LZ4's largest is refused. `lz4.h` and `lz4hc.h`
/// promise success, memory aside, wherever the room is no less than the
/// bound.
#[verifier::external_body]
fn lz4_compress_to_buffer(src: &[u8], mode: CompressionMode, dest: &mut [u8]) -> (r: Result<
    usize,
    std::io::Error,
>)
    requires
        old(dest)@.len() <= i32::MAX,
        lz4_runs(mode, src@.len()),
    ensures
        final(dest)@.len() == old(dest)@.len(),
        r matches Ok(n) ==> n <= old(dest)@.len() && lz4_encodes(
            src@,
            final(dest)@.subrange(0, n as int),
        ),
        lz4_takes(src@.len(), old(dest)@.len()) ==> r is Ok,
{
    let mode = match mode {
        CompressionMode::HighCompression(level) => lz4::block::CompressionMode::HIGHCOMPRESSION(level),
        CompressionMode::Fast(accel) => lz4::block::CompressionMode::FAST(accel),
        CompressionMode::Default => lz4::block::CompressionMode::DEFAULT,
    };
    lz4::block::compress_to_buffer(src, Some(mode), false, dest)
}

/// `lz4::block::decompress_to_buffer` with the size given: on success the
/// front of `dest` holds the decoded block, of the length returned, which is
/// at most `size`; an error where the size is above LZ4's largest or the
/// block does not decode into that much room.
#[verifier::external_body]
fn lz4_decompress_to_buffer(src: &[u8], size: i32, dest: &mut [u8]) -> (r: Result<
    usize,
    std::io::Error,
>)
    requires
        src@.len() <= i32::MAX,
        0 <= size <= old(dest)@.len(),
    ensures
        final(dest)@.len() == old(dest)@.len(),
        match r {
            Ok(n) => n <= size && lz4_block_decoded(src@, size as int) == Some(
                final(dest)@.subrange(0, n as int),
            ),
            Err(_) => lz4_block_decoded(src@, size as int) is None,
        },
{
    lz4::block::decompress_to_buffer(src, Some(size), dest)
}

/// The tier that a signed level stands for: below zero the fast tier with
/// the level's magnitude as acceleration, zero the default tier, above zero
/// the high-compression tier at that level.
pub open spec fn mode_for_level(compression: i32) -> CompressionMode {
    if compression < 0 {
        CompressionMode::Fast((-compression) as i32)
    } else if compression == 0 {
        CompressionMode::Default
    } else {
        CompressionMode::HighCompression(compression)
    }
}

/// Compresses with the tier chosen at construction.
pub struct Lz4Compressor(pub CompressionMode);

impl Lz4Compressor {
    /// An encoder at the tier that `compression` stands for. The level
    /// `i32::MIN` has no magnitude and is left out.
    pub fn new(compression: i32) -> (c: Lz4Compressor)
        requires
            compression > i32::MIN,
        ensures
            c.0 == mode_for_level(compression),
    {
        if compression < 0 {
            Lz4Compressor(CompressionMode::Fast(-compression))
        } else if compression == 0 {
            Lz4Compressor(CompressionMode::Default)
        } else {
            Lz4Compressor(CompressionMode::HighCompression(compression))
        }
    }
}

/// Decompresses LZ4 blocks of any tier.
pub struct Lz4Decompressor;

impl Encoder for Lz4Compressor {
    open spec fn may_produce(&self, src: Seq<u8>, out: Seq<u8>) -> bool {
        lz4_encodes(src, out)
    }

    open spec fn sure_bound(&self, uncompressed_len: nat) -> Option<nat> {
        if uncompressed_len <= LZ4_MAX_INPUT_SIZE {
            Some(lz4_len_bound(uncompressed_len as int) as nat)
        } else {
            None
        }
    }

    open spec fn surely_compresses(&self, src: Seq<u8>, capacity: nat) -> bool {
        lz4_runs(self.0, src.len()) && lz4_takes(src.len(), capacity)
    }

    /// LZ4's worst-case bound for an input of that length; fails for an
    /// input above LZ4's largest.
    fn compressed_len_bound(&mut self, uncompressed_len: usize) -> (bound: Result<
        usize,
        CodecFailure,
    >)
        ensures
            match bound {
                Ok(b) => uncompressed_len <= LZ4_MAX_INPUT_SIZE && b == lz4_len_bound(
                    uncompressed_len as int,
                ),
                Err(_) => uncompressed_len > LZ4_MAX_INPUT_SIZE,
            },
            *final(self) == *old(self),
    {
        count_or_failure(lz4_compress_bound(uncompressed_len))
    }

    /// Compresses `src` at the tier held into the front of `dest`: what is
    /// written is a block within the bound that decodes back to `src`.
    /// Succeeds wherever LZ4 can be run, the input is one that it takes and
    /// `dest` is no shorter than the bound for it. Fails without calling LZ4
    /// where `dest` is longer than `i32::MAX` bytes, the most that LZ4 can be
    /// told of, and where LZ4 cannot be run; fails for an input above LZ4's
    /// largest.
    fn compress(&mut self, src: &[u8], dest: &mut [u8]) -> (r: Result<usize, CodecFailure>)
        ensures
            old(dest)@.len() > i32::MAX ==> r is Err,
            !lz4_runs(old(self).0, src@.len()) ==> r is Err,
            src@.len() > LZ4_MAX_INPUT_SIZE ==> r is Err,
            *final(self) == *old(self),
    {
        if dest.len() > i32::MAX as usize {
            return Err(CodecFailure);
        }
        let optimal = match self.0 {
            CompressionMode::HighCompression(level) => level >= LZ4HC_OPTIMAL_FROM,
            _ => false,
        };
        if src.len() == 0 && optimal {
            return Err(CodecFailure);
        }
        count_or_failure(lz4_compress_to_buffer(src, self.0, dest))
    }
}

impl Decoder for Lz4Decompressor {
    open spec fn may_decode(&self, src: Seq<u8>, capacity: nat, out: Seq<u8>) -> bool {
        lz4_block_decoded(src, capacity as int) == Some(out)
    }

    open spec fn surely_decodes(&self, src: Seq<u8>, capacity: nat) -> bool {
        &&& src.len() <= i32::MAX
        &&& capacity <= i32::MAX
        &&& lz4_block_decoded(src, capacity as int) is Some
    }

    /// Decodes the block `src` into the front of `dest`, with all of `dest`
    /// as room. Succeeds exactly where neither buffer is longer than
    /// `i32::MAX` bytes, the most that LZ4 can be told of, and the block
    /// decodes into that much room; the count is then the length of what it
    /// decodes to.
    fn decompress(&mut self, src: &[u8], dest: &mut [u8]) -> (r: Result<usize, CodecFailure>)
        ensures
            r is Ok <==> old(self).surely_decodes(src@, old(dest)@.len()),
    {
        if src.len() > i32::MAX as usize || dest.len() > i32::MAX as usize {
            return Err(CodecFailure);
        }
        let size = dest.len() as i32;
        count_or_failure(lz4_decompress_to_buffer(src, size, dest))
    }
}

/// Round trip: the LZ4 decoder undoes the LZ4 encoder at every tier.
pub proof fn lemma_lz4_inverts(encoder: &Lz4Compressor)
    ensures
        inverts(&Lz4Decompressor, encoder),
{
}

/// Bound soundness: what the LZ4 encoder writes is within its bound.
pub proof fn lemma_lz4_bound_sound(encoder: &Lz4Compressor)
    ensures
        bound_is_sound(encoder),
{
}

/// The LZ4 pair is sure of itself on every input, at every tier, with any
/// chunk size that LZ4 takes as an input length.
pub proof fn lemma_lz4_is_sure(encoder: &Lz4Compressor, input: Seq<u8>, chunk_size: nat)
    requires
        0 < chunk_size <= LZ4_MAX_INPUT_SIZE,
    ensures
        pair_is_sure(encoder, &Lz4Decompressor, input, chunk_size),
{
    lemma_chunks_concat(input, chunk_size);
}

/// Round trip through the container: the frames that the writer makes of
/// any input with an LZ4 encoder are read back whole by the LZ4 decoder, and
/// what the reader makes of them is that input.
pub proof fn lemma_lz4_round_trip(
    encoder: &Lz4Compressor,
    input: Seq<u8>,
    chunk_size: nat,
    frames: Seq<Frame>,
    outs: Seq<Seq<u8>>,
)
    requires
        chunk_size > 0,
        encodes_chunks(encoder, chunks(input, chunk_size), frames),
        decodes_frames(&Lz4Decompressor, frames, outs),
    ensures
        is_framed(frames_bytes(frames)),
        parse_prefix(frames_bytes(frames)) == frames,
        concat(outs) == input,
{
    lemma_lz4_inverts(encoder);
    lemma_round_trip_inverse(encoder, &Lz4Decompressor, input, chunk_size, frames, outs);
}

} // verus!
