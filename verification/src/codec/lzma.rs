//! LZMA in the `.xz` container, through in-memory streams.
use crate::codec::copy::copy_prefix;
use crate::codec::{CodecFailure, Decoder};
use std::io::{Cursor, Read, Write};
use vstd::prelude::*;

verus! {

/// The highest preset that LZMA knows.
pub const LZMA_MAX_PRESET: u32 = 9;

/// What encoding `src` as one `.xz` stream with a CRC64 check at `preset`
/// comes to: the stream, or `None` where the preset is refused.
pub uninterp spec fn xz_encoded(preset: int, src: Seq<u8>) -> Option<Seq<u8>>;

/// What decoding the first `capacity` bytes of the `.xz` stream `src` comes
/// to: these bytes, or `None` where the stream is damaged or ends before.
pub uninterp spec fn xz_decoded(src: Seq<u8>, capacity: int) -> Option<Seq<u8>>;

/// An `xz2::write::XzEncoder` with a CRC64 check at `preset`, writing into
/// a growing buffer: takes all of `src`, finishes the stream and returns the
/// buffer, which holds one whole `.xz` stream that LZMA decodes back to
/// `src`. The presets 0 to 9 are taken, memory aside.
#[verifier::external_body]
fn xz_encode(preset: u32, src: &[u8]) -> (r: Result<Vec<u8>, std::io::Error>)
    ensures
        match r {
            Ok(stream) => xz_encoded(preset as int, src@) == Some(stream@) && xz_decoded(
                stream@,
                src@.len() as int,
            ) == Some(src@),
            Err(_) => xz_encoded(preset as int, src@) is None,
        },
        preset <= LZMA_MAX_PRESET ==> r is Ok,
{
    let stream = xz2::stream::Stream::new_easy_encoder(preset, xz2::stream::Check::Crc64)?;
    let mut encoder = xz2::write::XzEncoder::new_stream(Vec::new(), stream);
    encoder.write_all(src)?;
    encoder.finish()
}

/// An `xz2::read::XzDecoder` over a cursor on `src`, read until `dest` is
/// full: on success all of `dest` holds decoded bytes. An error where the
/// stream is damaged or ends before that.
#[verifier::external_body]
fn xz_decode(src: &[u8], dest: &mut [u8]) -> (r: Result<(), std::io::Error>)
    ensures
        final(dest)@.len() == old(dest)@.len(),
        match r {
            Ok(()) => xz_decoded(src@, old(dest)@.len() as int) == Some(final(dest)@),
            Err(_) => xz_decoded(src@, old(dest)@.len() as int) is None,
        },
{
    let mut decoder = xz2::read::XzDecoder::new(Cursor::new(src));
    decoder.read_exact(dest)
}

/// Compresses at the preset it holds, 0 to 9.
pub struct LzmaCompressor(pub u32);

/// Decompresses `.xz` streams.
pub struct LzmaDecompressor;

impl LzmaCompressor {
    /// Whether `compress` succeeds on `src` with `capacity` bytes of room:
    /// the preset is taken and the stream fits.
    pub open spec fn compresses(&self, src: Seq<u8>, capacity: nat) -> bool {
        xz_encoded(self.0 as int, src) matches Some(stream) && stream.len() <= capacity
    }

    /// Compresses all of `src` as one `.xz` stream, puts it at the front of
    /// `dest` and returns how many bytes that took. The stream decodes back
    /// to `src`. Fails, leaving `dest` alone, where the preset is refused or
    /// the stream is longer than `dest`; the presets 0 to 9 are never
    /// refused.
    pub fn compress(&mut self, src: &[u8], dest: &mut [u8]) -> (r: Result<usize, CodecFailure>)
        ensures
            final(dest)@.len() == old(dest)@.len(),
            r is Ok <==> old(self).compresses(src@, old(dest)@.len()),
            r matches Ok(n) ==> {
                &&& n <= old(dest)@.len()
                &&& xz_encoded(old(self).0 as int, src@) == Some(
                    final(dest)@.subrange(0, n as int),
                )
                &&& xz_decoded(final(dest)@.subrange(0, n as int), src@.len() as int) == Some(
                    src@,
                )
                &&& final(dest)@.subrange(n as int, old(dest)@.len() as int) == old(
                    dest,
                )@.subrange(n as int, old(dest)@.len() as int)
            },
            r is Err ==> final(dest)@ == old(dest)@,
            old(self).0 <= LZMA_MAX_PRESET ==> xz_encoded(old(self).0 as int, src@) is Some,
            *final(self) == *old(self),
    {
        match xz_encode(self.0, src) {
            Ok(stream) => {
                let r = copy_prefix(stream.as_slice(), dest);
                assert(r matches Ok(n) ==> dest@.subrange(0, n as int) =~= stream@);
                assert(r matches Ok(n) ==> dest@.subrange(n as int, dest@.len() as int) =~= old(
                    dest,
                )@.subrange(n as int, dest@.len() as int));
                r
            },
            Err(_) => Err(CodecFailure),
        }
    }
}

impl Decoder for LzmaDecompressor {
    open spec fn may_decode(&self, src: Seq<u8>, capacity: nat, out: Seq<u8>) -> bool {
        xz_decoded(src, capacity as int) == Some(out)
    }

    open spec fn surely_decodes(&self, src: Seq<u8>, capacity: nat) -> bool {
        xz_decoded(src, capacity as int) is Some
    }

    /// Decodes the stream `src` until `dest` is full. Succeeds exactly where
    /// the stream decodes that far; the count of a success is the length of
    /// `dest`.
    fn decompress(&mut self, src: &[u8], dest: &mut [u8]) -> (r: Result<usize, CodecFailure>)
        ensures
            r is Ok <==> old(self).surely_decodes(src@, old(dest)@.len()),
            r matches Ok(n) ==> n == old(dest)@.len(),
    {
        match xz_decode(src, dest) {
            Ok(()) => {
                assert(dest@.subrange(0, dest@.len() as int) =~= dest@);
                Ok(dest.len())
            },
            Err(_) => Err(CodecFailure),
        }
    }
}

} // verus!
