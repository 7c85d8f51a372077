use chunk_codec::codec::brotli::{
    bound_or_failure, clamp_quality, next_stream_step, BrotliCompressor, BrotliDecompressor,
    BrotliDictCompressor, BrotliDictDecompressor, StreamStep,
};
use chunk_codec::codec::lz4::{CompressionMode, Lz4Compressor, Lz4Decompressor};
use chunk_codec::codec::lzav::{count_to_result, CompressionLevel, LzavCompressor};
use chunk_codec::codec::lzma::{LzmaCompressor, LzmaDecompressor};
use chunk_codec::codec::snappy::{SnappyCompressor, SnappyDecompressor};
use chunk_codec::codec::zstd::{ZstdCompressor, ZstdDecompressor};
use chunk_codec::codec::{count_or_failure, CodecFailure, Decoder, Encoder};
use chunk_codec::stream::{compress, decompress, Error};

fn text(len: usize) -> Vec<u8> {
    let words: [&[u8]; 6] = [b"frame ", b"chunk ", b"codec ", b"bound ", b"level ", b"bytes "];
    let mut out = Vec::with_capacity(len + 8);
    let mut i = 0usize;
    while out.len() < len {
        out.extend_from_slice(words[(i * i + i / 3) % 6]);
        i += 1;
    }
    out.truncate(len);
    out
}

fn noise(len: usize) -> Vec<u8> {
    let mut state = 0x2545_f491_4f6c_dd1du64;
    (0..len)
        .map(|_| {
            state ^= state << 13;
            state ^= state >> 7;
            state ^= state << 17;
            (state >> 24) as u8
        })
        .collect()
}

fn round_trip<E: Encoder, D: Decoder>(input: &[u8], chunk_size: usize, e: &mut E, d: &mut D) -> usize {
    let mut packed: Vec<u8> = Vec::new();
    let c = compress(input, &mut packed, chunk_size, e).unwrap();
    assert_eq!(c.input_len as usize, input.len());
    assert_eq!(c.output_len as usize, packed.len());
    let mut out: Vec<u8> = Vec::new();
    let m = decompress(&packed, &mut out, d).unwrap();
    assert_eq!(m.output_len as usize, input.len());
    assert_eq!(out, input);
    packed.len()
}

fn check_bound<E: Encoder>(e: &mut E, input: &[u8]) {
    let bound = e.compressed_len_bound(input.len()).unwrap();
    let mut dest = vec![0u8; bound];
    let n = e.compress(input, &mut dest).unwrap();
    assert!(n <= bound);
}

struct Xz(LzmaCompressor);

impl Encoder for Xz {
    fn compressed_len_bound(&mut self, uncompressed_len: usize) -> Result<usize, CodecFailure> {
        Ok(uncompressed_len + uncompressed_len / 2 + 1024)
    }

    fn compress(&mut self, src: &[u8], dest: &mut [u8]) -> Result<usize, CodecFailure> {
        self.0.compress(src, dest)
    }
}

#[test]
fn copy_codec_copies() {
    let mut copy = chunk_codec::codec::copy::Copy;
    assert_eq!(copy.compressed_len_bound(0), Ok(0));
    assert_eq!(copy.compressed_len_bound(12345), Ok(12345));
    let mut dest = [9u8; 5];
    assert_eq!(copy.compress(b"abc", &mut dest), Ok(3));
    assert_eq!(dest, [b'a', b'b', b'c', 9, 9]);
    let mut dest = [9u8; 3];
    assert_eq!(copy.decompress(b"xyz", &mut dest), Ok(3));
    assert_eq!(dest, [b'x', b'y', b'z']);
    assert_eq!(copy.compress(b"", &mut dest), Ok(0));
    assert_eq!(dest, [b'x', b'y', b'z']);
}

#[test]
fn copy_codec_fails_on_short_buffer() {
    let mut copy = chunk_codec::codec::copy::Copy;
    let mut dest = [9u8; 2];
    assert_eq!(copy.compress(b"abc", &mut dest), Err(CodecFailure));
    assert_eq!(dest, [9, 9]);
    assert_eq!(copy.decompress(b"abc", &mut dest), Err(CodecFailure));
    assert_eq!(dest, [9, 9]);
}

#[test]
fn copy_prefix_leaves_the_rest_of_the_buffer() {
    let mut dest = [1u8, 2, 3, 4];
    assert_eq!(chunk_codec::codec::copy::copy_prefix(&[7, 8], &mut dest), Ok(2));
    assert_eq!(dest, [7, 8, 3, 4]);
}

#[test]
fn lz4_levels_map_to_tiers() {
    assert_eq!(Lz4Compressor::new(-3).0, CompressionMode::Fast(3));
    assert_eq!(Lz4Compressor::new(-9).0, CompressionMode::Fast(9));
    assert_eq!(Lz4Compressor::new(0).0, CompressionMode::Default);
    assert_eq!(Lz4Compressor::new(1).0, CompressionMode::HighCompression(1));
    assert_eq!(Lz4Compressor::new(9).0, CompressionMode::HighCompression(9));
    assert_eq!(Lz4Compressor::new(-i32::MAX).0, CompressionMode::Fast(i32::MAX));
}

#[test]
fn lz4_bound_is_exact() {
    let mut e = Lz4Compressor::new(0);
    assert_eq!(e.compressed_len_bound(0), Ok(16));
    assert_eq!(e.compressed_len_bound(100), Ok(116));
    assert_eq!(e.compressed_len_bound(16384), Ok(16384 + 64 + 16));
    assert_eq!(e.compressed_len_bound(0x7E00_0000), Ok(0x7E00_0000 + 0x7E00_0000 / 255 + 16));
    assert_eq!(e.compressed_len_bound(0x7E00_0001), Err(CodecFailure));
    assert_eq!(e.compressed_len_bound(usize::MAX), Err(CodecFailure));
}

#[test]
fn lz4_round_trips_at_every_level() {
    let input = text(50_000);
    for level in -9..=9 {
        let packed = round_trip(&input, 16384, &mut Lz4Compressor::new(level), &mut Lz4Decompressor);
        assert!(packed < input.len());
    }
}

#[test]
fn lz4_round_trips_at_every_chunk_size() {
    let input = text(3000);
    for chunk_size in [1usize, 2, 100, 3000, 4096] {
        round_trip(&input, chunk_size, &mut Lz4Compressor::new(1), &mut Lz4Decompressor);
    }
    round_trip(&noise(20_000), 4096, &mut Lz4Compressor::new(-1), &mut Lz4Decompressor);
}

#[test]
fn lz4_decompress_gives_back_the_payload_not_the_input() {
    let input = text(2000);
    let mut e = Lz4Compressor::new(3);
    let mut packed = vec![0u8; e.compressed_len_bound(input.len()).unwrap()];
    let n = e.compress(&input, &mut packed).unwrap();
    assert!(n < input.len());
    assert_ne!(&packed[..n], &input[..n]);
    let mut out = vec![0u8; input.len()];
    assert_eq!(Lz4Decompressor.decompress(&packed[..n], &mut out), Ok(input.len()));
    assert_eq!(out, input);
}

#[test]
fn lz4_fails_on_short_buffer_and_on_garbage() {
    let input = noise(1000);
    let mut dest = vec![0u8; 10];
    assert_eq!(Lz4Compressor::new(0).compress(&input, &mut dest), Err(CodecFailure));
    let mut out = vec![0u8; 64];
    assert_eq!(
        Lz4Decompressor.decompress(&[0xff, 0xff, 0xff, 0xff, 0xff, 0x01], &mut out),
        Err(CodecFailure)
    );
}

#[test]
fn lz4_short_output_is_an_integrity_fault() {
    let input = text(1000);
    let mut packed: Vec<u8> = Vec::new();
    compress(&input, &mut packed, 1000, &mut Lz4Compressor::new(0)).unwrap();
    packed[0..4].copy_from_slice(&[0xe9, 0x03, 0, 0]);
    let mut out: Vec<u8> = Vec::new();
    let r = decompress(&packed, &mut out, &mut Lz4Decompressor);
    assert_eq!(r, Err(Error::Integrity { expected: 1001, actual: 1000 }));
}

#[test]
fn zstd_bound_is_exact() {
    let mut e = ZstdCompressor::new(3, None).unwrap();
    assert_eq!(e.compressed_len_bound(0), Ok(64));
    assert_eq!(e.compressed_len_bound(100), Ok(163));
    assert_eq!(e.compressed_len_bound(16384), Ok(16384 + 64 + 56));
    assert_eq!(e.compressed_len_bound(200_000), Ok(200_781));
}

#[test]
fn zstd_round_trips_at_every_level() {
    let input = text(50_000);
    for level in (-7..=-1).chain(1..=12) {
        let mut e = ZstdCompressor::new(level, None).unwrap();
        let mut d = ZstdDecompressor::new(None).unwrap();
        let packed = round_trip(&input, 16384, &mut e, &mut d);
        assert!(packed < input.len());
    }
}

#[test]
fn zstd_round_trips_at_every_chunk_size() {
    let input = text(2000);
    for chunk_size in [1usize, 7, 2000, 100_000] {
        let mut e = ZstdCompressor::new(3, None).unwrap();
        let mut d = ZstdDecompressor::new(None).unwrap();
        round_trip(&input, chunk_size, &mut e, &mut d);
    }
}

#[test]
fn zstd_contexts_are_reused_across_chunks() {
    let mut e = ZstdCompressor::new(5, None).unwrap();
    let mut d = ZstdDecompressor::new(None).unwrap();
    round_trip(&text(40_000), 1000, &mut e, &mut d);
    round_trip(&noise(40_000), 1000, &mut e, &mut d);
    round_trip(&[], 1000, &mut e, &mut d);
}

#[test]
fn zstd_repeated_pairs_shrink() {
    let input: Vec<u8> = b"ab".iter().copied().cycle().take(1_000_000).collect();
    let mut e = ZstdCompressor::new(3, None).unwrap();
    let mut packed: Vec<u8> = Vec::new();
    let c = compress(&input, &mut packed, 16384, &mut e).unwrap();
    assert_eq!(c.input_len, 1_000_000);
    assert_eq!(c.output_len as usize, packed.len());
    assert!(c.output_len < 1_000_000);
    assert!(packed.len() >= 62 * 8);
    let mut d = ZstdDecompressor::new(None).unwrap();
    let mut out: Vec<u8> = Vec::new();
    let m = decompress(&packed, &mut out, &mut d).unwrap();
    assert_eq!(m.output_len, 1_000_000);
    assert_eq!(out, input);
}

#[test]
fn zstd_dictionary_round_trips_and_helps() {
    let dict = noise(8192);
    let input = dict.clone();
    let mut plain = ZstdCompressor::new(3, None).unwrap();
    let mut with_dict = ZstdCompressor::new(3, Some(&dict)).unwrap();
    let mut d_plain = ZstdDecompressor::new(None).unwrap();
    let mut d_dict = ZstdDecompressor::new(Some(&dict)).unwrap();
    let without = round_trip(&input, 2048, &mut plain, &mut d_plain);
    let with = round_trip(&input, 2048, &mut with_dict, &mut d_dict);
    assert!(with < without);
}

#[test]
fn zstd_dictionary_is_bound_to_the_data() {
    let dict = noise(8192);
    let other: Vec<u8> = dict.iter().map(|b| b.wrapping_add(1)).collect();
    let input = dict.clone();
    let mut e = ZstdCompressor::new(3, Some(&dict)).unwrap();
    let mut packed: Vec<u8> = Vec::new();
    compress(&input, &mut packed, 2048, &mut e).unwrap();

    let mut right = ZstdDecompressor::new(Some(&dict)).unwrap();
    let mut out: Vec<u8> = Vec::new();
    decompress(&packed, &mut out, &mut right).unwrap();
    assert_eq!(out, input);

    let mut none = ZstdDecompressor::new(None).unwrap();
    let mut out: Vec<u8> = Vec::new();
    let r = decompress(&packed, &mut out, &mut none);
    assert!(r.is_err() || out != input);

    let mut wrong = ZstdDecompressor::new(Some(&other)).unwrap();
    let mut out: Vec<u8> = Vec::new();
    let r = decompress(&packed, &mut out, &mut wrong);
    assert!(r.is_err() || out != input);
}

#[test]
fn zstd_fails_on_garbage_and_on_short_buffer() {
    let mut d = ZstdDecompressor::new(None).unwrap();
    let mut out = vec![0u8; 64];
    assert_eq!(d.decompress(&[1, 2, 3, 4, 5, 6, 7, 8, 9], &mut out), Err(CodecFailure));
    let mut e = ZstdCompressor::new(1, None).unwrap();
    let mut dest = vec![0u8; 4];
    assert_eq!(e.compress(&noise(1000), &mut dest), Err(CodecFailure));
    let mut frame = vec![16u8, 0, 0, 0, 4, 0, 0, 0, 0xde, 0xad, 0xbe, 0xef];
    let mut sink: Vec<u8> = Vec::new();
    assert_eq!(decompress(&frame, &mut sink, &mut d), Err(Error::Codec));
    frame.truncate(11);
    assert_eq!(decompress(&frame, &mut sink, &mut d), Err(Error::Truncated));
}

#[test]
fn snappy_bound_is_exact() {
    let mut e = SnappyCompressor::new();
    assert_eq!(e.compressed_len_bound(0), Ok(32));
    assert_eq!(e.compressed_len_bound(100), Ok(148));
    assert_eq!(e.compressed_len_bound(16384), Ok(32 + 16384 + 2730));
    assert_eq!(e.compressed_len_bound(u32::MAX as usize), Err(CodecFailure));
    assert_eq!(e.compressed_len_bound(usize::MAX), Err(CodecFailure));
}

#[test]
fn snappy_round_trips() {
    let input = text(70_000);
    let mut e = SnappyCompressor::new();
    let mut d = SnappyDecompressor::new();
    for chunk_size in [1usize, 16384, 70_000, 1 << 20] {
        round_trip(&input, chunk_size, &mut e, &mut d);
    }
    let packed = round_trip(&input, 16384, &mut e, &mut d);
    assert!(packed < input.len());
    round_trip(&noise(5000), 512, &mut e, &mut d);
}

#[test]
fn snappy_fails_on_short_buffer_and_on_nothing() {
    let mut e = SnappyCompressor::new();
    let mut dest = vec![0u8; 10];
    assert_eq!(e.compress(b"abc", &mut dest), Err(CodecFailure));
    let mut d = SnappyDecompressor::new();
    let mut out = vec![0u8; 16];
    assert_eq!(d.decompress(&[], &mut out), Err(CodecFailure));
    assert_eq!(d.decompress(&[200, 1, 2], &mut out), Err(CodecFailure));
}

#[test]
fn brotli_bound_is_exact() {
    let mut e = BrotliCompressor(5);
    assert_eq!(e.compressed_len_bound(0), Ok(2));
    assert_eq!(e.compressed_len_bound(100), Ok(106));
    assert_eq!(e.compressed_len_bound(16384), Ok(16384 + 6 + 4));
    assert_eq!(e.compressed_len_bound(100_000), Ok(100_000 + 6 + 24));
    assert_eq!(bound_or_failure(Some(0)), Err(CodecFailure));
    assert_eq!(bound_or_failure(None), Err(CodecFailure));
    assert_eq!(bound_or_failure(Some(7)), Ok(7));
}

#[test]
fn brotli_round_trips_at_every_level() {
    let input = text(40_000);
    for level in 1..=8 {
        let packed = round_trip(&input, 16384, &mut BrotliCompressor(level), &mut BrotliDecompressor);
        assert!(packed < input.len());
    }
    round_trip(&input, 1, &mut BrotliCompressor(2), &mut BrotliDecompressor);
}

#[test]
fn brotli_quality_is_moved_into_range() {
    assert_eq!(clamp_quality(-5), 0);
    assert_eq!(clamp_quality(0), 0);
    assert_eq!(clamp_quality(7), 7);
    assert_eq!(clamp_quality(11), 11);
    assert_eq!(clamp_quality(12), 11);
    assert_eq!(clamp_quality(i32::MAX), 11);
    assert_eq!(clamp_quality(i32::MIN), 0);
    let input = text(5000);
    round_trip(&input, 5000, &mut BrotliCompressor(40), &mut BrotliDecompressor);
    round_trip(&input, 5000, &mut BrotliCompressor(-1), &mut BrotliDecompressor);
}

#[test]
fn brotli_fails_on_garbage_and_on_short_buffer() {
    let mut out = vec![0u8; 64];
    assert_eq!(BrotliDecompressor.decompress(&[0xff; 20], &mut out), Err(CodecFailure));
    let mut dest = vec![0u8; 8];
    assert_eq!(BrotliCompressor(5).compress(&noise(1000), &mut dest), Err(CodecFailure));
}

#[test]
fn brotli_dictionary_settings_are_kept() {
    let c = BrotliDictCompressor::new(6, b"dictionary");
    assert_eq!(c.quality(), 6);
    assert_eq!(c.dict(), b"dictionary");
    let d = BrotliDictDecompressor::new(b"other");
    assert_eq!(d.dict(), b"other");
    let d = BrotliDictDecompressor::new(b"");
    assert_eq!(d.dict(), b"");
}

#[test]
fn stream_steps_follow_the_call() {
    assert_eq!(next_stream_step(false, false, 10), StreamStep::Fail);
    assert_eq!(next_stream_step(false, true, 10), StreamStep::Fail);
    assert_eq!(next_stream_step(false, true, 0), StreamStep::Fail);
    assert_eq!(next_stream_step(true, true, 1), StreamStep::Again);
    assert_eq!(next_stream_step(true, true, 0), StreamStep::Fail);
    assert_eq!(next_stream_step(true, false, 0), StreamStep::Done);
    assert_eq!(next_stream_step(true, false, 10), StreamStep::Done);
}

#[test]
fn lzma_round_trips_at_every_preset() {
    let input = text(30_000);
    for preset in 0..=9 {
        let packed = round_trip(&input, 16384, &mut Xz(LzmaCompressor(preset)), &mut LzmaDecompressor);
        assert!(packed < input.len());
    }
    round_trip(&input, 1000, &mut Xz(LzmaCompressor(0)), &mut LzmaDecompressor);
    round_trip(&noise(3000), 3000, &mut Xz(LzmaCompressor(6)), &mut LzmaDecompressor);
}

#[test]
fn lzma_refuses_unknown_preset_and_short_buffer() {
    let mut dest = vec![0u8; 4096];
    assert_eq!(LzmaCompressor(10).compress(b"abc", &mut dest), Err(CodecFailure));
    let mut dest = vec![0u8; 16];
    assert_eq!(LzmaCompressor(1).compress(&noise(1000), &mut dest), Err(CodecFailure));
}

#[test]
fn lzma_decoder_needs_the_whole_length() {
    let input = text(500);
    let mut dest = vec![0u8; 4096];
    let n = LzmaCompressor(1).compress(&input, &mut dest).unwrap();
    let mut out = vec![0u8; 500];
    assert_eq!(LzmaDecompressor.decompress(&dest[..n], &mut out), Ok(500));
    assert_eq!(out, input);
    let mut out = vec![0u8; 501];
    assert_eq!(LzmaDecompressor.decompress(&dest[..n], &mut out), Err(CodecFailure));
    let mut out = vec![0u8; 8];
    assert_eq!(LzmaDecompressor.decompress(&[1, 2, 3], &mut out), Err(CodecFailure));
}

#[test]
fn lzav_levels_map_to_tiers() {
    assert_eq!(LzavCompressor::new(0).level(), CompressionLevel::Default);
    assert_eq!(LzavCompressor::new(1).level(), CompressionLevel::Hi);
}

#[test]
fn lzav_counts_are_read() {
    assert_eq!(count_to_result(0, 100), Err(CodecFailure));
    assert_eq!(count_to_result(1, 100), Ok(1));
    assert_eq!(count_to_result(100, 100), Ok(100));
    assert_eq!(count_to_result(101, 100), Err(CodecFailure));
    assert_eq!(count_to_result(-1, 100), Err(CodecFailure));
    assert_eq!(count_to_result(i32::MIN, usize::MAX), Err(CodecFailure));
    assert_eq!(count_to_result(i32::MAX, usize::MAX), Ok(i32::MAX as usize));
}

#[test]
fn bounds_hold_for_incompressible_input() {
    let input = noise(20_000);
    check_bound(&mut chunk_codec::codec::copy::Copy, &input);
    check_bound(&mut Lz4Compressor::new(-1), &input);
    check_bound(&mut Lz4Compressor::new(0), &input);
    check_bound(&mut Lz4Compressor::new(9), &input);
    check_bound(&mut ZstdCompressor::new(1, None).unwrap(), &input);
    check_bound(&mut ZstdCompressor::new(12, None).unwrap(), &input);
    check_bound(&mut SnappyCompressor::new(), &input);
    check_bound(&mut BrotliCompressor(2), &input);
    check_bound(&mut BrotliCompressor(8), &input);
    check_bound(&mut chunk_codec::codec::copy::Copy, &[]);
    check_bound(&mut Lz4Compressor::new(0), &[1]);
    check_bound(&mut ZstdCompressor::new(3, None).unwrap(), &[]);
    check_bound(&mut SnappyCompressor::new(), &[]);
    check_bound(&mut BrotliCompressor(5), &[]);
}

#[test]
fn empty_input_gives_no_frames_with_any_codec() {
    round_trip(&[], 16384, &mut Lz4Compressor::new(1), &mut Lz4Decompressor);
    round_trip(&[], 16384, &mut ZstdCompressor::new(1, None).unwrap(), &mut ZstdDecompressor::new(None).unwrap());
    round_trip(&[], 16384, &mut BrotliCompressor(1), &mut BrotliDecompressor);
    round_trip(&[], 16384, &mut SnappyCompressor::new(), &mut SnappyDecompressor::new());
    round_trip(&[], 16384, &mut Xz(LzmaCompressor(0)), &mut LzmaDecompressor);
    let mut packed: Vec<u8> = Vec::new();
    compress(&[], &mut packed, 16384, &mut Lz4Compressor::new(1)).unwrap();
    assert_eq!(packed, Vec::<u8>::new());
    compress(&[], &mut packed, usize::MAX, &mut Lz4Compressor::new(1)).unwrap();
    assert_eq!(packed, Vec::<u8>::new());
}

#[test]
fn outcomes_map_to_counts_and_one_failure() {
    assert_eq!(count_or_failure::<()>(Ok(0)), Ok(0));
    assert_eq!(count_or_failure::<()>(Ok(17)), Ok(17));
    assert_eq!(count_or_failure::<()>(Err(())), Err(CodecFailure));
    assert_eq!(count_or_failure::<u8>(Err(3)), Err(CodecFailure));
    assert_eq!(count_or_failure::<&str>(Ok(usize::MAX)), Ok(usize::MAX));
}

#[test]
fn snappy_succeeds_exactly_with_room_for_its_bound() {
    let mut e = SnappyCompressor::new();
    for input in [noise(0), noise(1), noise(100), text(100), noise(5000)] {
        let bound = e.compressed_len_bound(input.len()).unwrap();
        let mut enough = vec![7u8; bound];
        let n = e.compress(&input, &mut enough).unwrap();
        assert!(0 < n && n <= bound);
        let mut more = vec![7u8; bound + 100];
        assert_eq!(e.compress(&input, &mut more), Ok(n));
        assert_eq!(&more[..n], &enough[..n]);
        let mut short = vec![7u8; bound - 1];
        assert_eq!(e.compress(&input, &mut short), Err(CodecFailure));
        assert_eq!(short, vec![7u8; bound - 1]);
        let mut none: Vec<u8> = Vec::new();
        assert_eq!(e.compress(&input, &mut none), Err(CodecFailure));
    }
}

#[test]
fn snappy_decoding_depends_on_the_block_and_the_room_alone() {
    let input = text(3000);
    let mut e = SnappyCompressor::new();
    let mut packed = vec![0u8; e.compressed_len_bound(input.len()).unwrap()];
    let n = e.compress(&input, &mut packed).unwrap();
    let mut first = SnappyDecompressor::new();
    let mut second = SnappyDecompressor::new();
    let mut a = vec![1u8; 3000];
    let mut b = vec![2u8; 3000];
    assert_eq!(first.decompress(&packed[..n], &mut a), Ok(3000));
    assert_eq!(second.decompress(&packed[..n], &mut b), Ok(3000));
    assert_eq!(first.decompress(&packed[..n], &mut b), Ok(3000));
    assert_eq!(a, input);
    assert_eq!(b, input);
    let mut short = vec![0u8; 2999];
    assert_eq!(first.decompress(&packed[..n], &mut short), Err(CodecFailure));
    assert_eq!(second.decompress(&packed[..n], &mut short), Err(CodecFailure));
    let mut long = vec![9u8; 3001];
    assert_eq!(first.decompress(&packed[..n], &mut long), Ok(3000));
    assert_eq!(&long[..3000], &input[..]);
    assert_eq!(first.decompress(&packed[..n - 1], &mut a), Err(CodecFailure));
}

#[test]
fn lz4_decoding_depends_on_the_block_and_the_room_alone() {
    let input = text(3000);
    let mut e = Lz4Compressor::new(1);
    let mut packed = vec![0u8; e.compressed_len_bound(input.len()).unwrap()];
    let n = e.compress(&input, &mut packed).unwrap();
    let mut a = vec![1u8; 3000];
    let mut b = vec![2u8; 3000];
    assert_eq!(Lz4Decompressor.decompress(&packed[..n], &mut a), Ok(3000));
    assert_eq!(Lz4Decompressor.decompress(&packed[..n], &mut b), Ok(3000));
    assert_eq!(a, input);
    assert_eq!(b, input);
    let mut short = vec![0u8; 2999];
    assert_eq!(Lz4Decompressor.decompress(&packed[..n], &mut short), Err(CodecFailure));
    assert_eq!(Lz4Decompressor.decompress(&packed[..n], &mut short), Err(CodecFailure));
    let mut long = vec![9u8; 3100];
    assert_eq!(Lz4Decompressor.decompress(&packed[..n], &mut long), Ok(3000));
    assert_eq!(&long[..3000], &input[..]);
    assert_eq!(Lz4Decompressor.decompress(&packed[..n - 1], &mut a), Err(CodecFailure));
}

fn writes_and_reads_back<E: Encoder, D: Decoder>(e: &mut E, d: &mut D, input: &[u8]) {
    let bound = e.compressed_len_bound(input.len()).unwrap();
    let mut dest = vec![0x55u8; bound];
    let n = e.compress(input, &mut dest).unwrap();
    assert!(n <= bound);
    let mut roomy = vec![0xaau8; bound + 1000];
    let m = e.compress(input, &mut roomy).unwrap();
    assert!(m <= bound);
    let mut out = vec![3u8; input.len()];
    assert_eq!(d.decompress(&dest[..n], &mut out), Ok(input.len()));
    assert_eq!(out, input);
    let mut out = vec![4u8; input.len()];
    assert_eq!(d.decompress(&roomy[..m], &mut out), Ok(input.len()));
    assert_eq!(out, input);
}

fn inputs() -> Vec<Vec<u8>> {
    vec![noise(0), noise(1), text(1), noise(17), text(300), noise(70_000), text(70_000), vec![0u8; 200_000]]
}

#[test]
fn lz4_writes_within_its_bound_what_reads_back() {
    for input in inputs() {
        for level in [-9, -1, 0, 1, 9, -100_000] {
            writes_and_reads_back(&mut Lz4Compressor::new(level), &mut Lz4Decompressor, &input);
        }
        if !input.is_empty() {
            for level in [10, 12, 100] {
                writes_and_reads_back(&mut Lz4Compressor::new(level), &mut Lz4Decompressor, &input);
            }
        }
    }
}

#[test]
fn lz4_is_not_run_on_nothing_at_the_optimal_levels() {
    for level in [10, 11, 12, 13, i32::MAX] {
        let mut dest = vec![5u8; 16];
        assert_eq!(Lz4Compressor::new(level).compress(&[], &mut dest), Err(CodecFailure));
        assert_eq!(dest, vec![5u8; 16]);
    }
    let mut dest = vec![5u8; 16];
    assert_eq!(Lz4Compressor::new(9).compress(&[], &mut dest), Ok(1));
}

#[test]
fn zstd_writes_within_its_bound_what_reads_back() {
    for input in inputs() {
        for level in [-7, -1, 1, 3, 12, 19, 0, 1000, -1_000_000] {
            let mut e = ZstdCompressor::new(level, None).unwrap();
            let mut d = ZstdDecompressor::new(None).unwrap();
            writes_and_reads_back(&mut e, &mut d, &input);
        }
    }
}

#[test]
fn zstd_with_a_dictionary_writes_what_reads_back_with_it() {
    let dict = text(5000);
    for input in inputs() {
        let mut e = ZstdCompressor::new(3, Some(&dict)).unwrap();
        let mut d = ZstdDecompressor::new(Some(&dict)).unwrap();
        writes_and_reads_back(&mut e, &mut d, &input);
    }
}

#[test]
fn zstd_encoder_takes_every_level_and_dictionary() {
    let mut broken = vec![0x37u8, 0xa4, 0x30, 0xec];
    broken.extend_from_slice(&[0xff; 60]);
    for level in [i32::MIN, -1, 0, 1, 22, 23, i32::MAX] {
        assert!(ZstdCompressor::new(level, None).is_ok());
        assert!(ZstdCompressor::new(level, Some(&[])).is_ok());
        assert!(ZstdCompressor::new(level, Some(&broken)).is_ok());
        assert!(ZstdCompressor::new(level, Some(&noise(100_000))).is_ok());
    }
}

#[test]
fn zstd_decoder_takes_no_dictionary_and_refuses_a_broken_one() {
    let mut broken = vec![0x37u8, 0xa4, 0x30, 0xec];
    broken.extend_from_slice(&[0xff; 60]);
    assert!(ZstdDecompressor::new(None).is_ok());
    assert!(ZstdDecompressor::new(Some(&[])).is_ok());
    assert!(ZstdDecompressor::new(Some(&noise(1000))).is_ok());
    assert!(ZstdDecompressor::new(Some(&broken)).is_err());
    assert!(ZstdDecompressor::new(Some(&broken)).is_err());
}

#[test]
fn brotli_writes_within_its_bound_what_reads_back() {
    for input in inputs() {
        for level in [-3, 0, 1, 2, 5, 8, 11, 50] {
            writes_and_reads_back(&mut BrotliCompressor(level), &mut BrotliDecompressor, &input);
        }
    }
}

#[test]
fn snappy_writes_within_its_bound_what_reads_back() {
    for input in inputs() {
        writes_and_reads_back(&mut SnappyCompressor::new(), &mut SnappyDecompressor::new(), &input);
    }
}

#[test]
fn lzma_writes_what_reads_back_at_every_preset() {
    for input in [noise(0), noise(1), text(300), noise(5000)] {
        for preset in 0..=9 {
            let mut dest = vec![0x55u8; input.len() + 1024];
            let n = LzmaCompressor(preset).compress(&input, &mut dest).unwrap();
            let mut again = vec![0xaau8; input.len() + 2048];
            assert_eq!(LzmaCompressor(preset).compress(&input, &mut again), Ok(n));
            assert_eq!(&again[..n], &dest[..n]);
            assert_eq!(&again[n..], &vec![0xaau8; input.len() + 2048 - n][..]);
            let mut exact = vec![0u8; n];
            assert_eq!(LzmaCompressor(preset).compress(&input, &mut exact), Ok(n));
            let mut short = vec![9u8; n - 1];
            assert_eq!(LzmaCompressor(preset).compress(&input, &mut short), Err(CodecFailure));
            assert_eq!(short, vec![9u8; n - 1]);
            let mut out = vec![1u8; input.len()];
            assert_eq!(LzmaDecompressor.decompress(&dest[..n], &mut out), Ok(input.len()));
            assert_eq!(out, input);
        }
    }
}

#[test]
fn decoders_give_the_same_answer_every_time() {
    let input = text(4000);
    let mut e = ZstdCompressor::new(3, None).unwrap();
    let mut packed = vec![0u8; e.compressed_len_bound(input.len()).unwrap()];
    let n = e.compress(&input, &mut packed).unwrap();
    let mut d = ZstdDecompressor::new(None).unwrap();
    for _ in 0..3 {
        let mut short = vec![0u8; 3999];
        assert_eq!(d.decompress(&packed[..n], &mut short), Err(CodecFailure));
        let mut out = vec![7u8; 4000];
        assert_eq!(d.decompress(&packed[..n], &mut out), Ok(4000));
        assert_eq!(out, input);
        assert_eq!(d.decompress(&packed[..n - 1], &mut out), Err(CodecFailure));
        let mut long = vec![7u8; 4001];
        assert_eq!(d.decompress(&packed[..n], &mut long), Ok(4000));
    }
    let mut packed = vec![0u8; BrotliCompressor(4).compressed_len_bound(input.len()).unwrap()];
    let n = BrotliCompressor(4).compress(&input, &mut packed).unwrap();
    for _ in 0..3 {
        let mut short = vec![0u8; 3999];
        assert_eq!(BrotliDecompressor.decompress(&packed[..n], &mut short), Err(CodecFailure));
        let mut out = vec![7u8; 4000];
        assert_eq!(BrotliDecompressor.decompress(&packed[..n], &mut out), Ok(4000));
        assert_eq!(out, input);
        assert_eq!(BrotliDecompressor.decompress(&packed[..n - 1], &mut out), Err(CodecFailure));
    }
}

