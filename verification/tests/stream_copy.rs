use chunk_codec::discard::{Discard, SeekFrom};
use chunk_codec::stream::{compress, decompress, Error};

fn sample(len: usize) -> Vec<u8> {
    (0..len).map(|i| (i * 7 % 251) as u8).collect()
}

fn copy_round_trip(input: &[u8], chunk_size: usize) -> (Vec<u8>, Vec<u8>) {
    let mut packed: Vec<u8> = Vec::new();
    let c = compress(input, &mut packed, chunk_size, &mut chunk_codec::codec::copy::Copy).unwrap();
    assert_eq!(c.input_len as usize, input.len());
    assert_eq!(c.output_len as usize, packed.len());
    let mut out: Vec<u8> = Vec::new();
    let d = decompress(&packed, &mut out, &mut chunk_codec::codec::copy::Copy).unwrap();
    assert_eq!(d.input_len as usize, packed.len());
    assert_eq!(d.output_len as usize, out.len());
    (packed, out)
}

#[test]
fn copy_container_bytes_are_exact() {
    let mut packed: Vec<u8> = Vec::new();
    compress(b"hello, frames", &mut packed, 5, &mut chunk_codec::codec::copy::Copy).unwrap();
    let mut expected: Vec<u8> = Vec::new();
    expected.extend_from_slice(&[5, 0, 0, 0, 5, 0, 0, 0]);
    expected.extend_from_slice(b"hello");
    expected.extend_from_slice(&[5, 0, 0, 0, 5, 0, 0, 0]);
    expected.extend_from_slice(b", fra");
    expected.extend_from_slice(&[3, 0, 0, 0, 3, 0, 0, 0]);
    expected.extend_from_slice(b"mes");
    assert_eq!(packed, expected);
}

#[test]
fn copy_round_trips_with_one_byte_chunks() {
    let input = sample(300);
    let (packed, out) = copy_round_trip(&input, 1);
    assert_eq!(packed.len(), 300 * 9);
    assert_eq!(out, input);
}

#[test]
fn copy_round_trips_with_one_frame() {
    let input = sample(16384);
    let (packed, out) = copy_round_trip(&input, 16384);
    assert_eq!(packed.len(), 16384 + 8);
    assert_eq!(out, input);
    let (packed, out) = copy_round_trip(&input, 1 << 20);
    assert_eq!(packed.len(), 16384 + 8);
    assert_eq!(out, input);
}

#[test]
fn copy_round_trips_with_many_frames() {
    let input = sample(100_000);
    let (packed, out) = copy_round_trip(&input, 4096);
    assert_eq!(packed.len(), 100_000 + 25 * 8);
    assert_eq!(out, input);
    let (packed, out) = copy_round_trip(&input, 4095);
    assert_eq!(packed.len(), 100_000 + 25 * 8);
    assert_eq!(out, input);
}

#[test]
fn empty_input_gives_no_frames() {
    let (packed, out) = copy_round_trip(&[], 16384);
    assert_eq!(packed, Vec::<u8>::new());
    assert_eq!(out, Vec::<u8>::new());
}

#[test]
fn compress_appends_to_what_the_output_holds() {
    let mut packed: Vec<u8> = vec![1, 2, 3];
    let m = compress(b"xy", &mut packed, 10, &mut chunk_codec::codec::copy::Copy).unwrap();
    assert_eq!(packed, vec![1, 2, 3, 2, 0, 0, 0, 2, 0, 0, 0, b'x', b'y']);
    assert_eq!(m.input_len, 2);
    assert_eq!(m.output_len, 13);
}

#[test]
fn chunk_size_zero_reads_nothing() {
    let mut packed: Vec<u8> = Vec::new();
    let m = compress(b"abc", &mut packed, 0, &mut chunk_codec::codec::copy::Copy).unwrap();
    assert_eq!(packed, Vec::<u8>::new());
    assert_eq!(m.input_len, 0);
    assert_eq!(m.output_len, 0);
}

#[test]
fn truncated_header_is_reported() {
    let mut packed: Vec<u8> = Vec::new();
    compress(b"abcdef", &mut packed, 3, &mut chunk_codec::codec::copy::Copy).unwrap();
    assert_eq!(packed.len(), 22);
    let mut out: Vec<u8> = Vec::new();
    let r = decompress(&packed[..15], &mut out, &mut chunk_codec::codec::copy::Copy);
    assert_eq!(r, Err(Error::Truncated));
    assert_eq!(out, b"abc".to_vec());
}

#[test]
fn truncated_payload_is_reported() {
    let mut packed: Vec<u8> = Vec::new();
    compress(b"abcdef", &mut packed, 3, &mut chunk_codec::codec::copy::Copy).unwrap();
    let mut out: Vec<u8> = Vec::new();
    let r = decompress(&packed[..21], &mut out, &mut chunk_codec::codec::copy::Copy);
    assert_eq!(r, Err(Error::Truncated));
    assert_eq!(out, b"abc".to_vec());
}

#[test]
fn shortened_compressed_len_is_an_integrity_fault() {
    let mut packed: Vec<u8> = Vec::new();
    compress(b"abcdef", &mut packed, 6, &mut chunk_codec::codec::copy::Copy).unwrap();
    packed[4] = 4;
    packed.truncate(12);
    let mut out: Vec<u8> = Vec::new();
    let r = decompress(&packed, &mut out, &mut chunk_codec::codec::copy::Copy);
    assert_eq!(r, Err(Error::Integrity { expected: 6, actual: 4 }));
    assert_eq!(out, Vec::<u8>::new());
}

#[test]
fn lengthened_compressed_len_is_refused() {
    let mut packed: Vec<u8> = Vec::new();
    compress(b"abcdefgh", &mut packed, 4, &mut chunk_codec::codec::copy::Copy).unwrap();
    packed[4] = 6;
    let mut out: Vec<u8> = Vec::new();
    let r = decompress(&packed, &mut out, &mut chunk_codec::codec::copy::Copy);
    assert_eq!(r, Err(Error::Codec));
    assert_eq!(out, Vec::<u8>::new());
}

#[test]
fn changed_uncompressed_len_is_an_integrity_fault() {
    let mut packed: Vec<u8> = Vec::new();
    compress(b"abcdefgh", &mut packed, 4, &mut chunk_codec::codec::copy::Copy).unwrap();
    packed[12] = 9;
    let mut out: Vec<u8> = Vec::new();
    let r = decompress(&packed, &mut out, &mut chunk_codec::codec::copy::Copy);
    assert_eq!(r, Err(Error::Integrity { expected: 9, actual: 4 }));
    assert_eq!(out, b"abcd".to_vec());
}

#[test]
fn decompress_into_counting_sink_counts() {
    let input = sample(10_000);
    let mut packed: Vec<u8> = Vec::new();
    compress(&input, &mut packed, 1000, &mut chunk_codec::codec::copy::Copy).unwrap();
    let mut sink = Discard::new();
    let m = decompress(&packed, &mut sink, &mut chunk_codec::codec::copy::Copy).unwrap();
    assert_eq!(m.input_len, 10_080);
    assert_eq!(m.output_len, 10_000);
    assert_eq!(sink.position(), 10_000);
    assert_eq!(sink.len(), 10_000);
}

#[test]
fn full_sink_stops_decompression() {
    let mut packed: Vec<u8> = Vec::new();
    compress(b"abcdef", &mut packed, 3, &mut chunk_codec::codec::copy::Copy).unwrap();
    let mut sink = Discard::new();
    sink.seek(SeekFrom::Start(u64::MAX - 4)).unwrap();
    let r = decompress(&packed, &mut sink, &mut chunk_codec::codec::copy::Copy);
    assert_eq!(r, Err(Error::Sink));
    assert_eq!(sink.position(), u64::MAX - 1);
}

#[test]
fn full_sink_stops_compression() {
    let mut sink = Discard::new();
    sink.seek(SeekFrom::Start(u64::MAX - 20)).unwrap();
    let r = compress(b"abcdef", &mut sink, 3, &mut chunk_codec::codec::copy::Copy);
    assert_eq!(r, Err(Error::Sink));
}
