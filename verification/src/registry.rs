//! From an algorithm, a level and an optional dictionary to an encoder or a
//! decoder that is set up and ready.
use crate::algorithm::Algorithm;
use crate::codec::brotli::{
    BrotliCompressor, BrotliDecompressor, BrotliDictCompressor, BrotliDictDecompressor,
};
use crate::codec::lz4::{mode_for_level, Lz4Compressor, Lz4Decompressor};
use crate::codec::lzav::{CompressionLevel, LzavCompressor, LzavDecompressor};
use crate::codec::lzma::{LzmaCompressor, LzmaDecompressor};
use crate::codec::snappy::{SnappyCompressor, SnappyDecompressor};
use crate::codec::zstd::{zstd_dictionary_loads, ZstdCompressor, ZstdDecompressor};
use vstd::prelude::*;

verus! {

/// Why no encoder or decoder could be set up.
#[derive(Clone, Copy, Debug, PartialEq, Eq, Structural)]
pub enum ConfigError {
    /// The algorithm has no such level.
    UnsupportedLevel { algorithm: Algorithm, level: i32 },
    /// The algorithm's library refused the dictionary.
    Refused { algorithm: Algorithm },
}

/// An encoder for one of the algorithms. Brotli with a dictionary, LZMA and
/// LZAV reach part of their libraries only through native calls, which this
/// library does not make: for these the selection holds the settings and what
/// of the work needs no native call, and the caller adds the rest.
pub enum SelectedEncoder {
    Copy(crate::codec::copy::Copy),
    Lz4(Lz4Compressor),
    Zstd(ZstdCompressor),
    Brotli(BrotliCompressor),
    BrotliDict(BrotliDictCompressor),
    Snappy(SnappyCompressor),
    Lzma(LzmaCompressor),
    Lzav(LzavCompressor),
}

/// A decoder for one of the algorithms. Brotli with a dictionary and LZAV
/// decode through native calls, which this library does not make: for these
/// the selection holds the settings, and the caller adds the calls.
pub enum SelectedDecoder {
    Copy(crate::codec::copy::Copy),
    Lz4(Lz4Decompressor),
    Zstd(ZstdDecompressor),
    Brotli(BrotliDecompressor),
    BrotliDict(BrotliDictDecompressor),
    Snappy(SnappyDecompressor),
    Lzma(LzmaDecompressor),
    Lzav(LzavDecompressor),
}

/// How much of a dictionary file of `file_len` bytes is used when a prefix of
/// `requested_len` bytes is asked for: the prefix, or all of a shorter file.
pub fn dictionary_len(requested_len: u64, file_len: u64) -> (used: u64)
    ensures
        used == vstd::math::min(requested_len as int, file_len as int),
{
    if requested_len <= file_len {
        requested_len
    } else {
        file_len
    }
}

/// The bytes of a dictionary that may be missing; none for a missing one.
pub open spec fn dictionary_bytes(dict: Option<&Vec<u8>>) -> Seq<u8> {
    match dict {
        Some(d) => d@,
        None => Seq::empty(),
    }
}

/// `selected` is the encoder that `algorithm` calls for at `level` with `dict`.
pub open spec fn is_encoder_for(
    selected: SelectedEncoder,
    algorithm: Algorithm,
    level: i32,
    dict: Option<&Vec<u8>>,
) -> bool {
    match algorithm {
        Algorithm::Copy => selected is Copy,
        Algorithm::Lz4 => selected matches SelectedEncoder::Lz4(c) && c.0 == mode_for_level(level),
        Algorithm::Zstd => selected matches SelectedEncoder::Zstd(c) && c.level() == level
            && c.dictionary() == dictionary_bytes(dict),
        Algorithm::Brotli => match dict {
            None => selected matches SelectedEncoder::Brotli(c) && c.0 == level,
            Some(d) => selected matches SelectedEncoder::BrotliDict(c) && c.quality_spec() == level
                && c.dict_spec() == d@,
        },
        Algorithm::Snappy => selected is Snappy,
        Algorithm::Lzma => selected matches SelectedEncoder::Lzma(c) && c.0 == level,
        Algorithm::Lzav => selected matches SelectedEncoder::Lzav(c) && c.level_spec() == (if level
            == 0 {
            CompressionLevel::Default
        } else {
            CompressionLevel::Hi
        }),
    }
}

/// `selected` is the decoder that `algorithm` calls for with `dict`.
pub open spec fn is_decoder_for(
    selected: SelectedDecoder,
    algorithm: Algorithm,
    dict: Option<&Vec<u8>>,
) -> bool {
    match algorithm {
        Algorithm::Copy => selected is Copy,
        Algorithm::Lz4 => selected is Lz4,
        Algorithm::Zstd => selected matches SelectedDecoder::Zstd(d) && d.dictionary()
            == dictionary_bytes(dict),
        Algorithm::Brotli => match dict {
            None => selected is Brotli,
            Some(bytes) => selected matches SelectedDecoder::BrotliDict(d) && d.dict_spec()
                == bytes@,
        },
        Algorithm::Snappy => selected is Snappy,
        Algorithm::Lzma => selected is Lzma,
        Algorithm::Lzav => selected is Lzav,
    }
}

/// Sets up the encoder for `algorithm` at level `compression`. A level
/// outside the algorithm's levels is refused, not moved into range, and
/// nothing else is. The dictionary goes to Zstandard and Brotli; the other
/// algorithms take it and make no use of it.
pub fn encoder(algorithm: Algorithm, compression: i32, dict: Option<&Vec<u8>>) -> (r: Result<
    SelectedEncoder,
    ConfigError,
>)
    ensures
        match r {
            Ok(selected) => algorithm.supports_level_spec(compression) && is_encoder_for(
                selected,
                algorithm,
                compression,
                dict,
            ),
            Err(ConfigError::UnsupportedLevel { algorithm: a, level }) => a == algorithm && level
                == compression && !algorithm.supports_level_spec(compression),
            Err(ConfigError::Refused { algorithm: a }) => false,
        },
{
    if !algorithm.supports_level(compression) {
        return Err(ConfigError::UnsupportedLevel { algorithm, level: compression });
    }
    match algorithm {
        Algorithm::Copy => Ok(SelectedEncoder::Copy(crate::codec::copy::Copy)),
        Algorithm::Lz4 => Ok(SelectedEncoder::Lz4(Lz4Compressor::new(compression))),
        Algorithm::Zstd => {
            let made = match dict {
                None => ZstdCompressor::new(compression, None),
                Some(d) => ZstdCompressor::new(compression, Some(d.as_slice())),
            };
            match made {
                Ok(c) => Ok(SelectedEncoder::Zstd(c)),
                Err(_) => Err(ConfigError::Refused { algorithm }),
            }
        },
        Algorithm::Brotli => match dict {
            None => Ok(SelectedEncoder::Brotli(BrotliCompressor(compression))),
            Some(d) => Ok(
                SelectedEncoder::BrotliDict(
                    BrotliDictCompressor::new(compression as u32, d.as_slice()),
                ),
            ),
        },
        Algorithm::Snappy => Ok(SelectedEncoder::Snappy(SnappyCompressor::new())),
        Algorithm::Lzma => Ok(SelectedEncoder::Lzma(LzmaCompressor(compression as u32))),
        Algorithm::Lzav => Ok(SelectedEncoder::Lzav(LzavCompressor::new(compression as u32))),
    }
}

/// Sets up the decoder for `algorithm`. The dictionary goes to Zstandard and
/// Brotli; the other algorithms take it and make no use of it. Only
/// Zstandard can refuse, and only a dictionary that it cannot load: no
/// dictionary is always taken.
pub fn decoder(algorithm: Algorithm, dict: Option<&Vec<u8>>) -> (r: Result<
    SelectedDecoder,
    ConfigError,
>)
    ensures
        match r {
            Ok(selected) => is_decoder_for(selected, algorithm, dict),
            Err(ConfigError::Refused { algorithm: a }) => a == algorithm && algorithm
                == Algorithm::Zstd && !zstd_dictionary_loads(dictionary_bytes(dict)),
            Err(_) => false,
        },
        algorithm == Algorithm::Zstd ==> (r is Ok <==> zstd_dictionary_loads(
            dictionary_bytes(dict),
        )),
        dict is None ==> r is Ok,
{
    match algorithm {
        Algorithm::Copy => Ok(SelectedDecoder::Copy(crate::codec::copy::Copy)),
        Algorithm::Lz4 => Ok(SelectedDecoder::Lz4(Lz4Decompressor)),
        Algorithm::Zstd => {
            let made = match dict {
                None => ZstdDecompressor::new(None),
                Some(d) => ZstdDecompressor::new(Some(d.as_slice())),
            };
            match made {
                Ok(d) => Ok(SelectedDecoder::Zstd(d)),
                Err(_) => Err(ConfigError::Refused { algorithm }),
            }
        },
        Algorithm::Brotli => match dict {
            None => Ok(SelectedDecoder::Brotli(BrotliDecompressor)),
            Some(d) => Ok(SelectedDecoder::BrotliDict(BrotliDictDecompressor::new(d.as_slice()))),
        },
        Algorithm::Snappy => Ok(SelectedDecoder::Snappy(SnappyDecompressor::new())),
        Algorithm::Lzma => Ok(SelectedDecoder::Lzma(LzmaDecompressor)),
        Algorithm::Lzav => Ok(SelectedDecoder::Lzav(LzavDecompressor)),
    }
}

} // verus!
