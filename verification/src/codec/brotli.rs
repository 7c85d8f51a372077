//! Brotli: the one-shot mode, and the settings of the streaming mode that a
//! dictionary calls for.
use crate::codec::{count_or_failure, CodecFailure, Decoder, Encoder};
use crate::frame::{frames_bytes, is_framed, parse_prefix, Frame};
use crate::roundtrip::{
    bound_is_sound, inverts, lemma_chunks_concat, lemma_round_trip_inverse, pair_is_sure,
};
use crate::stream::{chunks, concat, decodes_frames, encodes_chunks};
use vstd::prelude::*;

verus! {

/// Brotli could not compress.
#[verifier::external_type_specification]
#[verifier::external_body]
pub struct ExCompressError(brotlic::CompressError);

/// Brotli could not decompress.
#[verifier::external_type_specification]
#[verifier::external_body]
pub struct ExDecompressError(brotlic::DecompressError);

/// The highest quality that Brotli knows.
pub const BROTLI_MAX_QUALITY: i32 = 11;

/// What decoding the Brotli stream `src` into `capacity` bytes of room comes
/// to: the decoded bytes, or `None` where the stream is damaged or asks for
/// more room.
pub uninterp spec fn brotli_decoded(src: Seq<u8>, capacity: int) -> Option<Seq<u8>>;

/// What `BrotliEncoderMaxCompressedSize` computes for an input of `n` bytes,
/// where that fits `usize`: two bytes for an empty input, else the input and
/// six bytes and four more for each 16 KiB.
pub open spec fn brotli_len_bound(n: int) -> int {
    if n == 0 {
        2
    } else {
        n + 6 + 4 * (n / 16384)
    }
}

/// Whether the bound for an input of `src_len` bytes can be told as a
/// `usize`, and `capacity` bytes of room are no less than it.
pub open spec fn brotli_takes(src_len: nat, capacity: nat) -> bool {
    brotli_len_bound(src_len as int) <= usize::MAX && capacity >= brotli_len_bound(src_len as int)
}

/// `out` is a stream that Brotli may write for `src`: it is no longer than
/// the bound for the input, where there is one, and decoding it into room
/// for the input's length gives the input back.
pub open spec fn brotli_encodes(src: Seq<u8>, out: Seq<u8>) -> bool {
    &&& brotli_len_bound(src.len() as int) <= usize::MAX ==> out.len() <= brotli_len_bound(
        src.len() as int,
    )
    &&& brotli_decoded(out, src.len() as int) == Some(src)
}

/// `brotlic::compress_bound` at the best quality, which hands on
/// `BrotliEncoderMaxCompressedSize`.
#[verifier::external_body]
fn brotli_compress_bound(input_size: usize) -> (r: Option<usize>)
    ensures
        brotli_len_bound(input_size as int) <= usize::MAX ==> r == Some(
            brotli_len_bound(input_size as int) as usize,
        ),
{
    brotlic::compress_bound(input_size, brotlic::Quality::best())
}

/// `brotlic::compress` at the quality that `brotlic::Quality::new` makes of
/// `level`, with the default window and the generic mode. On success the
/// count is the number of bytes written to the front of `dest`; these are a
/// stream within the bound, which Brotli decodes back to `src`. With room of
/// at least the bound the native call falls back, where it must, on a stored
/// stream, and so succeeds, memory aside.
#[verifier::external_body]
fn brotli_compress(level: u8, src: &[u8], dest: &mut [u8]) -> (r: Result<
    usize,
    brotlic::CompressError,
>)
    requires
        level <= 11,
    ensures
        final(dest)@.len() == old(dest)@.len(),
        r matches Ok(n) ==> n <= old(dest)@.len() && brotli_encodes(
            src@,
            final(dest)@.subrange(0, n as int),
        ),
        brotli_takes(src@.len(), old(dest)@.len()) ==> r is Ok,
{
    let quality = brotlic::Quality::new(level).or(Err(brotlic::CompressError))?;
    let window = brotlic::WindowSize::default();
    brotlic::compress(src, dest, quality, window, brotlic::CompressionMode::Generic)
}

/// `brotlic::decompress`: on success the front of `dest` holds the decoded
/// stream, of the length returned; an error where the stream is damaged or
/// decodes to more than `dest` holds.
#[verifier::external_body]
fn brotli_decompress(src: &[u8], dest: &mut [u8]) -> (r: Result<usize, brotlic::DecompressError>)
    ensures
        final(dest)@.len() == old(dest)@.len(),
        match r {
            Ok(n) => n <= old(dest)@.len() && brotli_decoded(src@, old(dest)@.len() as int)
                == Some(final(dest)@.subrange(0, n as int)),
            Err(_) => brotli_decoded(src@, old(dest)@.len() as int) is None,
        },
{
    brotlic::decompress(src, dest)
}

/// The quality that Brotli runs at when asked for `quality`: it takes 0 to
/// 11 and moves anything else to the nearer end.
pub open spec fn clamped_quality(quality: i32) -> u8 {
    if quality < 0 {
        0
    } else if quality > BROTLI_MAX_QUALITY {
        BROTLI_MAX_QUALITY as u8
    } else {
        quality as u8
    }
}

/// `clamped_quality`, computed.
pub fn clamp_quality(quality: i32) -> (level: u8)
    ensures
        level == clamped_quality(quality),
        level <= 11,
{
    if quality < 0 {
        0
    } else if quality > BROTLI_MAX_QUALITY {
        BROTLI_MAX_QUALITY as u8
    } else {
        quality as u8
    }
}

/// Maps the bound that Brotli gave to the encoder's answer: zero is Brotli's
/// sign for an input too long to bound.
pub fn bound_or_failure(bound: Option<usize>) -> (r: Result<usize, CodecFailure>)
    ensures
        match bound {
            Some(b) => if b == 0 {
                r is Err
            } else {
                r == Ok::<usize, CodecFailure>(b)
            },
            None => r is Err,
        },
{
    match bound {
        Some(b) => if b == 0 {
            Err(CodecFailure)
        } else {
            Ok(b)
        },
        None => Err(CodecFailure),
    }
}

/// Compresses in one shot at the quality it holds.
pub struct BrotliCompressor(pub i32);

/// Decompresses in one shot.
pub struct BrotliDecompressor;

impl Encoder for BrotliCompressor {
    open spec fn may_produce(&self, src: Seq<u8>, out: Seq<u8>) -> bool {
        brotli_encodes(src, out)
    }

    open spec fn sure_bound(&self, uncompressed_len: nat) -> Option<nat> {
        if brotli_len_bound(uncompressed_len as int) <= usize::MAX {
            Some(brotli_len_bound(uncompressed_len as int) as nat)
        } else {
            None
        }
    }

    open spec fn surely_compresses(&self, src: Seq<u8>, capacity: nat) -> bool {
        brotli_takes(src.len(), capacity)
    }

    /// Brotli's bound for an input of that length; fails where the bound
    /// cannot be told as a `usize`.
    fn compressed_len_bound(&mut self, uncompressed_len: usize) -> (bound: Result<
        usize,
        CodecFailure,
    >)
        ensures
            brotli_len_bound(uncompressed_len as int) <= usize::MAX ==> bound == Ok::<
                usize,
                CodecFailure,
            >(brotli_len_bound(uncompressed_len as int) as usize),
            *final(self) == *old(self),
    {
        bound_or_failure(brotli_compress_bound(uncompressed_len))
    }

    /// Compresses `src` in one shot, at the quality held moved into
    /// Brotli's range, into the front of `dest`: what is written is a stream
    /// within the bound that decodes back to `src`. Succeeds wherever `dest`
    /// is no shorter than the bound for the length of `src`.
    fn compress(&mut self, src: &[u8], dest: &mut [u8]) -> (r: Result<usize, CodecFailure>)
        ensures
            *final(self) == *old(self),
    {
        count_or_failure(brotli_compress(clamp_quality(self.0), src, dest))
    }
}

impl Decoder for BrotliDecompressor {
    open spec fn may_decode(&self, src: Seq<u8>, capacity: nat, out: Seq<u8>) -> bool {
        brotli_decoded(src, capacity as int) == Some(out)
    }

    open spec fn surely_decodes(&self, src: Seq<u8>, capacity: nat) -> bool {
        brotli_decoded(src, capacity as int) is Some
    }

    /// Decodes the stream `src` into the front of `dest`, with all of `dest`
    /// as room. Succeeds exactly where the stream decodes into that much
    /// room; the count is then the length of what it decodes to.
    fn decompress(&mut self, src: &[u8], dest: &mut [u8]) -> (r: Result<usize, CodecFailure>)
        ensures
            r is Ok <==> old(self).surely_decodes(src@, old(dest)@.len()),
    {
        count_or_failure(brotli_decompress(src, dest))
    }
}

/// What the streaming encoder is set up with when a dictionary is attached:
/// the quality, and the raw dictionary bytes that get prepared once per run.
pub struct BrotliDictCompressor {
    quality: u32,
    dict: Vec<u8>,
}

impl BrotliDictCompressor {
    /// The quality that the streaming encoder is to run at.
    pub closed spec fn quality_spec(&self) -> u32 {
        self.quality
    }

    /// The raw dictionary bytes.
    pub closed spec fn dict_spec(&self) -> Seq<u8> {
        self.dict@
    }

    /// Keeps the quality and a copy of the dictionary.
    pub fn new(quality: u32, dict: &[u8]) -> (c: BrotliDictCompressor)
        ensures
            c.quality_spec() == quality,
            c.dict_spec() == dict@,
    {
        BrotliDictCompressor { quality, dict: vstd::slice::slice_to_vec(dict) }
    }

    /// The quality to set on the streaming encoder.
    pub fn quality(&self) -> (q: u32)
        ensures
            q == self.quality_spec(),
    {
        self.quality
    }

    /// The raw dictionary to prepare and attach.
    pub fn dict(&self) -> (d: &[u8])
        ensures
            d@ == self.dict_spec(),
    {
        self.dict.as_slice()
    }
}

/// What the streaming decoder is set up with when a dictionary is attached:
/// the raw dictionary bytes.
pub struct BrotliDictDecompressor {
    dict: Vec<u8>,
}

impl BrotliDictDecompressor {
    /// The raw dictionary bytes.
    pub closed spec fn dict_spec(&self) -> Seq<u8> {
        self.dict@
    }

    /// Keeps a copy of the dictionary.
    pub fn new(dict: &[u8]) -> (d: BrotliDictDecompressor)
        ensures
            d.dict_spec() == dict@,
    {
        BrotliDictDecompressor { dict: vstd::slice::slice_to_vec(dict) }
    }

    /// The raw dictionary to attach.
    pub fn dict(&self) -> (d: &[u8])
        ensures
            d@ == self.dict_spec(),
    {
        self.dict.as_slice()
    }
}

/// What to do after one call into a Brotli stream.
#[derive(Clone, Copy, Debug, PartialEq, Eq, Structural)]
pub enum StreamStep {
    /// The call reported an error, or output is pending with no room left
    /// for it: give up.
    Fail,
    /// Output is pending and there is room for it: call again.
    Again,
    /// Nothing is pending: the count of bytes put out so far is the result.
    Done,
}

/// Decides how a streaming run goes on after a call that did or did not
/// succeed, that did or did not leave output pending, and that left
/// `room_left` bytes of the destination unused. A run is never sent round
/// again without room to make progress in.
pub fn next_stream_step(call_succeeded: bool, has_more_output: bool, room_left: usize) -> (step:
    StreamStep)
    ensures
        step == if !call_succeeded {
            StreamStep::Fail
        } else if !has_more_output {
            StreamStep::Done
        } else if room_left == 0 {
            StreamStep::Fail
        } else {
            StreamStep::Again
        },
{
    if !call_succeeded {
        StreamStep::Fail
    } else if !has_more_output {
        StreamStep::Done
    } else if room_left == 0 {
        StreamStep::Fail
    } else {
        StreamStep::Again
    }
}

/// Round trip: the Brotli decoder undoes the Brotli encoder at every
/// quality.
pub proof fn lemma_brotli_inverts(encoder: &BrotliCompressor)
    ensures
        inverts(&BrotliDecompressor, encoder),
{
}

/// Bound soundness: what the Brotli encoder writes is within its bound.
pub proof fn lemma_brotli_bound_sound(encoder: &BrotliCompressor)
    ensures
        bound_is_sound(encoder),
{
}

/// The Brotli pair is sure of itself on every input, at every quality, with
/// any chunk size whose bound fits a header field.
pub proof fn lemma_brotli_is_sure(encoder: &BrotliCompressor, input: Seq<u8>, chunk_size: nat)
    requires
        chunk_size > 0,
        brotli_len_bound(chunk_size as int) <= u32::MAX,
    ensures
        pair_is_sure(encoder, &BrotliDecompressor, input, chunk_size),
{
    lemma_chunks_concat(input, chunk_size);
}

/// Round trip through the container: the frames that the writer makes of
/// any input with a Brotli encoder are read back whole by the Brotli decoder, and
/// what the reader makes of them is that input.
pub proof fn lemma_brotli_round_trip(
    encoder: &BrotliCompressor,
    input: Seq<u8>,
    chunk_size: nat,
    frames: Seq<Frame>,
    outs: Seq<Seq<u8>>,
)
    requires
        chunk_size > 0,
        encodes_chunks(encoder, chunks(input, chunk_size), frames),
        decodes_frames(&BrotliDecompressor, frames, outs),
    ensures
        is_framed(frames_bytes(frames)),
        parse_prefix(frames_bytes(frames)) == frames,
        concat(outs) == input,
{
    lemma_brotli_inverts(encoder);
    lemma_round_trip_inverse(encoder, &BrotliDecompressor, input, chunk_size, frames, outs);
}

} // verus!
