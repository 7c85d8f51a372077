//! Zstandard in bulk mode, with an optional dictionary that is loaded once and
//! used for every chunk.
use crate::codec::{count_or_failure, CodecFailure, Decoder, Encoder};
use crate::frame::{frames_bytes, is_framed, parse_prefix, Frame};
use crate::roundtrip::{
    bound_is_sound, inverts, lemma_chunks_concat, lemma_round_trip_inverse, pair_is_sure,
};
use crate::stream::{chunks, concat, decodes_frames, encodes_chunks};
use vstd::prelude::*;

verus! {

/// A Zstandard compression context.
#[verifier::external_type_specification]
#[verifier::external_body]
pub struct ExCompressor<'a>(zstd::bulk::Compressor<'a>);

/// A Zstandard decompression context.
#[verifier::external_type_specification]
#[verifier::external_body]
pub struct ExDecompressor<'a>(zstd::bulk::Decompressor<'a>);

/// The compression level that a compression context was set up with.
pub uninterp spec fn zstd_encoder_level(context: zstd::bulk::Compressor<'static>) -> i32;

/// The dictionary that a compression context was loaded with; empty for none.
pub uninterp spec fn zstd_encoder_dictionary(context: zstd::bulk::Compressor<'static>) -> Seq<u8>;

/// The dictionary that a decompression context was loaded with; empty for none.
pub uninterp spec fn zstd_decoder_dictionary(context: zstd::bulk::Decompressor<'static>) -> Seq<
    u8,
>;

/// Whether a decompression context takes `dictionary`: Zstandard digests a
/// dictionary when it is loaded for decoding, and refuses one that is marked
/// as a trained dictionary and is damaged.
pub uninterp spec fn zstd_dictionary_loads(dictionary: Seq<u8>) -> bool;

/// What decoding the Zstandard frames in `src` with `dictionary` into
/// `capacity` bytes of room comes to: the decoded bytes, or `None` where the
/// frames are damaged, were written with another dictionary, or ask for more
/// room.
pub uninterp spec fn zstd_decoded(dictionary: Seq<u8>, src: Seq<u8>, capacity: int) -> Option<
    Seq<u8>,
>;

/// The input length from which on Zstandard may have no bound: the largest
/// input size of a build with 32-bit lengths.
pub const ZSTD_BOUNDED_BELOW: usize = 0xFF00_FF00;

/// What `ZSTD_COMPRESSBOUND` computes for an input of `n` bytes.
pub open spec fn zstd_len_bound(n: int) -> int {
    n + n / 256 + if n < 131072 {
        (131072 - n) / 2048
    } else {
        0
    }
}

/// `out` is a frame that Zstandard may write for `src` with `dictionary`:
/// it is no longer than the bound for the input, where there is one, and
/// decoding it with the same dictionary into room for the input's length
/// gives the input back.
pub open spec fn zstd_encodes(dictionary: Seq<u8>, src: Seq<u8>, out: Seq<u8>) -> bool {
    &&& src.len() < ZSTD_BOUNDED_BELOW ==> out.len() <= zstd_len_bound(src.len() as int)
    &&& zstd_decoded(dictionary, out, src.len() as int) == Some(src)
}

/// Whether Zstandard is sure to compress an input of `src_len` bytes with
/// `dictionary` into `capacity` bytes of room: there is no dictionary to
/// digest, the input has a bound, and the room is no less than it.
pub open spec fn zstd_takes(dictionary: Seq<u8>, src_len: nat, capacity: nat) -> bool {
    &&& dictionary.len() == 0
    &&& src_len < ZSTD_BOUNDED_BELOW
    &&& capacity >= zstd_len_bound(src_len as int)
}

/// `zstd::bulk::Compressor::with_dictionary`: a context set to `level`, with
/// a copy of `dictionary` loaded. An empty dictionary is no dictionary. The
/// level is moved into Zstandard's range and the dictionary is only copied,
/// so that this succeeds, memory aside.
#[verifier::external_body]
fn zstd_compressor_with_dictionary(level: i32, dictionary: &[u8]) -> (r: Result<
    zstd::bulk::Compressor<'static>,
    std::io::Error,
>)
    ensures
        r is Ok,
        r matches Ok(context) ==> zstd_encoder_level(context) == level,
        r matches Ok(context) ==> zstd_encoder_dictionary(context) == dictionary@,
{
    zstd::bulk::Compressor::with_dictionary(level, dictionary)
}

/// `zstd::bulk::Decompressor::with_dictionary`: a context with a copy of
/// `dictionary` loaded and digested. An empty dictionary is no dictionary,
/// and is always taken.
#[verifier::external_body]
fn zstd_decompressor_with_dictionary(dictionary: &[u8]) -> (r: Result<
    zstd::bulk::Decompressor<'static>,
    std::io::Error,
>)
    ensures
        r is Ok <==> zstd_dictionary_loads(dictionary@),
        dictionary@.len() == 0 ==> r is Ok,
        r matches Ok(context) ==> zstd_decoder_dictionary(context) == dictionary@,
{
    zstd::bulk::Decompressor::with_dictionary(dictionary)
}

/// `zstd::zstd_safe::compress_bound`, which hands on `ZSTD_compressBound`:
/// below the largest input size that is the value of `ZSTD_COMPRESSBOUND`.
#[verifier::external_body]
fn zstd_compress_bound(src_size: usize) -> (bound: usize)
    ensures
        src_size < ZSTD_BOUNDED_BELOW ==> bound == zstd_len_bound(src_size as int),
{
    zstd::zstd_safe::compress_bound(src_size)
}

/// `zstd::bulk::Compressor::compress_to_buffer` on a slice. On success the
/// count is the number of bytes written to the front of `dest`; these are a
/// frame within Zstandard's worst-case bound, which Zstandard decodes back to
/// `src` with the context's dictionary. `zstd.h` promises room enough
/// wherever `dest` is no shorter than the bound, and leaves success open to
/// other reasons: with no dictionary to digest, these are memory alone.
/// Level and dictionary stay as they were set.
#[verifier::external_body]
fn zstd_compress_to_buffer(
    context: &mut zstd::bulk::Compressor<'static>,
    src: &[u8],
    dest: &mut [u8],
) -> (r: Result<usize, std::io::Error>)
    ensures
        final(dest)@.len() == old(dest)@.len(),
        r matches Ok(n) ==> n <= old(dest)@.len() && zstd_encodes(
            zstd_encoder_dictionary(*old(context)),
            src@,
            final(dest)@.subrange(0, n as int),
        ),
        zstd_takes(zstd_encoder_dictionary(*old(context)), src@.len(), old(dest)@.len())
            ==> r is Ok,
        zstd_encoder_level(*final(context)) == zstd_encoder_level(*old(context)),
        zstd_encoder_dictionary(*final(context)) == zstd_encoder_dictionary(*old(context)),
{
    context.compress_to_buffer(src, dest)
}

/// `zstd::bulk::Decompressor::decompress_to_buffer` on a slice: on success
/// the front of `dest` holds what the frames in `src` decode to with the
/// context's dictionary, of the length returned; an error where they do not
/// decode into that much room. The dictionary stays loaded.
#[verifier::external_body]
fn zstd_decompress_to_buffer(
    context: &mut zstd::bulk::Decompressor<'static>,
    src: &[u8],
    dest: &mut [u8],
) -> (r: Result<usize, std::io::Error>)
    ensures
        final(dest)@.len() == old(dest)@.len(),
        match r {
            Ok(n) => n <= old(dest)@.len() && zstd_decoded(
                zstd_decoder_dictionary(*old(context)),
                src@,
                old(dest)@.len() as int,
            ) == Some(final(dest)@.subrange(0, n as int)),
            Err(_) => zstd_decoded(
                zstd_decoder_dictionary(*old(context)),
                src@,
                old(dest)@.len() as int,
            ) is None,
        },
        zstd_decoder_dictionary(*final(context)) == zstd_decoder_dictionary(*old(context)),
{
    context.decompress_to_buffer(src, dest)
}

/// A Zstandard encoder at a fixed level, with or without a dictionary.
pub struct ZstdCompressor {
    context: zstd::bulk::Compressor<'static>,
}

/// A Zstandard decoder, with or without a dictionary.
pub struct ZstdDecompressor {
    context: zstd::bulk::Decompressor<'static>,
}

/// The bytes of a dictionary that may be missing; none for a missing one.
pub open spec fn dictionary_or_none(dictionary: Option<&[u8]>) -> Seq<u8> {
    match dictionary {
        Some(d) => d@,
        None => Seq::empty(),
    }
}

impl ZstdCompressor {
    /// The level that this encoder compresses at.
    pub closed spec fn level(&self) -> i32 {
        zstd_encoder_level(self.context)
    }

    /// The dictionary that this encoder uses; empty for none.
    pub closed spec fn dictionary(&self) -> Seq<u8> {
        zstd_encoder_dictionary(self.context)
    }

    /// An encoder at `level`. With a dictionary, every chunk is compressed
    /// against it, and only a decoder with the same dictionary reads the
    /// result. Zstandard takes every level and every dictionary here.
    pub fn new(level: i32, dictionary: Option<&[u8]>) -> (r: Result<ZstdCompressor, CodecFailure>)
        ensures
            r is Ok,
            r matches Ok(c) ==> c.level() == level,
            r matches Ok(c) ==> c.dictionary() == dictionary_or_none(dictionary),
    {
        let none: [u8; 0] = [];
        let made = match dictionary {
            None => zstd_compressor_with_dictionary(level, none.as_slice()),
            Some(d) => zstd_compressor_with_dictionary(level, d),
        };
        match made {
            Ok(context) => Ok(ZstdCompressor { context }),
            Err(_) => Err(CodecFailure),
        }
    }
}

impl ZstdDecompressor {
    /// The dictionary that this decoder uses; empty for none.
    pub closed spec fn dictionary(&self) -> Seq<u8> {
        zstd_decoder_dictionary(self.context)
    }

    /// A decoder that reads what an encoder with the same dictionary, or
    /// with none where `dictionary` is `None`, wrote. Succeeds exactly where
    /// Zstandard takes the dictionary; no dictionary is always taken.
    pub fn new(dictionary: Option<&[u8]>) -> (r: Result<ZstdDecompressor, CodecFailure>)
        ensures
            r is Ok <==> zstd_dictionary_loads(dictionary_or_none(dictionary)),
            dictionary_or_none(dictionary).len() == 0 ==> r is Ok,
            r matches Ok(d) ==> d.dictionary() == dictionary_or_none(dictionary),
    {
        let none: [u8; 0] = [];
        assert(none@ =~= Seq::<u8>::empty());
        let made = match dictionary {
            None => zstd_decompressor_with_dictionary(none.as_slice()),
            Some(d) => zstd_decompressor_with_dictionary(d),
        };
        match made {
            Ok(context) => Ok(ZstdDecompressor { context }),
            Err(_) => Err(CodecFailure),
        }
    }
}

impl Encoder for ZstdCompressor {
    open spec fn may_produce(&self, src: Seq<u8>, out: Seq<u8>) -> bool {
        zstd_encodes(self.dictionary(), src, out)
    }

    open spec fn sure_bound(&self, uncompressed_len: nat) -> Option<nat> {
        if uncompressed_len < ZSTD_BOUNDED_BELOW {
            Some(zstd_len_bound(uncompressed_len as int) as nat)
        } else {
            None
        }
    }

    open spec fn surely_compresses(&self, src: Seq<u8>, capacity: nat) -> bool {
        zstd_takes(self.dictionary(), src.len(), capacity)
    }

    /// Zstandard's answer for an input of that length: its worst-case bound
    /// wherever the input is shorter than `ZSTD_BOUNDED_BELOW` bytes.
    fn compressed_len_bound(&mut self, uncompressed_len: usize) -> (bound: Result<
        usize,
        CodecFailure,
    >)
        ensures
            bound is Ok,
            final(self).level() == old(self).level(),
            final(self).dictionary() == old(self).dictionary(),
    {
        Ok(zstd_compress_bound(uncompressed_len))
    }

    /// Compresses `src` at the level held, against the dictionary held,
    /// into the front of `dest`: what is written is a frame within the bound
    /// that decodes back to `src` with the same dictionary. Succeeds wherever
    /// no dictionary is held and `dest` is no shorter than the bound for the
    /// length of `src`.
    fn compress(&mut self, src: &[u8], dest: &mut [u8]) -> (r: Result<usize, CodecFailure>)
        ensures
            final(self).level() == old(self).level(),
            final(self).dictionary() == old(self).dictionary(),
    {
        count_or_failure(zstd_compress_to_buffer(&mut self.context, src, dest))
    }
}

impl Decoder for ZstdDecompressor {
    open spec fn may_decode(&self, src: Seq<u8>, capacity: nat, out: Seq<u8>) -> bool {
        zstd_decoded(self.dictionary(), src, capacity as int) == Some(out)
    }

    open spec fn surely_decodes(&self, src: Seq<u8>, capacity: nat) -> bool {
        zstd_decoded(self.dictionary(), src, capacity as int) is Some
    }

    /// Decodes the frames in `src` with the dictionary held into the front
    /// of `dest`, with all of `dest` as room. Succeeds exactly where they
    /// decode into that much room; the count is then the length of what they
    /// decode to.
    fn decompress(&mut self, src: &[u8], dest: &mut [u8]) -> (r: Result<usize, CodecFailure>)
        ensures
            r is Ok <==> old(self).surely_decodes(src@, old(dest)@.len()),
            final(self).dictionary() == old(self).dictionary(),
    {
        count_or_failure(zstd_decompress_to_buffer(&mut self.context, src, dest))
    }
}

/// Round trip: a Zstandard decoder undoes a Zstandard encoder that holds
/// the same dictionary, at every level.
pub proof fn lemma_zstd_inverts(encoder: &ZstdCompressor, decoder: &ZstdDecompressor)
    requires
        decoder.dictionary() == encoder.dictionary(),
    ensures
        inverts(decoder, encoder),
{
}

/// Bound soundness: what the Zstandard encoder writes is within its bound.
pub proof fn lemma_zstd_bound_sound(encoder: &ZstdCompressor)
    ensures
        bound_is_sound(encoder),
{
}

/// A Zstandard pair without a dictionary is sure of itself on every input,
/// at every level, with any chunk size that Zstandard has a bound for.
pub proof fn lemma_zstd_is_sure(
    encoder: &ZstdCompressor,
    decoder: &ZstdDecompressor,
    input: Seq<u8>,
    chunk_size: nat,
)
    requires
        0 < chunk_size < ZSTD_BOUNDED_BELOW,
        encoder.dictionary().len() == 0,
        decoder.dictionary() == encoder.dictionary(),
    ensures
        pair_is_sure(encoder, decoder, input, chunk_size),
{
    lemma_chunks_concat(input, chunk_size);
}

/// Round trip through the container: the frames that the writer makes of
/// any input with a Zstandard encoder are read back whole by a Zstandard
/// decoder that holds the same dictionary, and what the reader makes of them
/// is that input.
pub proof fn lemma_zstd_round_trip(
    encoder: &ZstdCompressor,
    decoder: &ZstdDecompressor,
    input: Seq<u8>,
    chunk_size: nat,
    frames: Seq<Frame>,
    outs: Seq<Seq<u8>>,
)
    requires
        chunk_size > 0,
        decoder.dictionary() == encoder.dictionary(),
        encodes_chunks(encoder, chunks(input, chunk_size), frames),
        decodes_frames(decoder, frames, outs),
    ensures
        is_framed(frames_bytes(frames)),
        parse_prefix(frames_bytes(frames)) == frames,
        concat(outs) == input,
{
    lemma_zstd_inverts(encoder, decoder);
    lemma_round_trip_inverse(encoder, decoder, input, chunk_size, frames, outs);
}

} // verus!
