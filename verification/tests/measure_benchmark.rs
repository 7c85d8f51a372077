use chunk_codec::algorithm::Algorithm;
use chunk_codec::benchmark::{
    gains_little, run_benchmark, speed_decimbps, sweep, BenchmarkResult, Sweep,
};
use chunk_codec::codec::lz4::{Lz4Compressor, Lz4Decompressor};
use chunk_codec::codec::{CodecFailure, Decoder};
use chunk_codec::measure::{measure, rounded_quotient, Measurement};
use chunk_codec::registry::{decoder, encoder, SelectedDecoder, SelectedEncoder};
use chunk_codec::stream::Error;

fn m(input_len: u64, output_len: u64, elapsed_nanos: u128) -> Measurement {
    Measurement { input_len, output_len, elapsed_nanos }
}

#[test]
fn quotients_round_to_nearest() {
    assert_eq!(rounded_quotient(0, 1), 0);
    assert_eq!(rounded_quotient(7, 2), 4);
    assert_eq!(rounded_quotient(5, 2), 3);
    assert_eq!(rounded_quotient(4, 3), 1);
    assert_eq!(rounded_quotient(5, 3), 2);
    assert_eq!(rounded_quotient(1, 2), 1);
    assert_eq!(rounded_quotient(1, 3), 0);
    assert_eq!(rounded_quotient(10, u128::MAX), 0);
    assert_eq!(rounded_quotient(u128::MAX / 4, 1), u128::MAX / 4);
    assert_eq!(rounded_quotient(u128::MAX / 4, u128::MAX / 2 - 1), 1);
    assert_eq!(rounded_quotient(u128::MAX / 4, u128::MAX / 2), 0);
}

#[test]
fn ratio_is_in_thousandths() {
    assert_eq!(m(1000, 333, 1).compression_ratio_permille(), Some(333));
    assert_eq!(m(3, 1, 1).compression_ratio_permille(), Some(333));
    assert_eq!(m(3, 2, 1).compression_ratio_permille(), Some(667));
    assert_eq!(m(2000, 1, 1).compression_ratio_permille(), Some(1));
    assert_eq!(m(2001, 1, 1).compression_ratio_permille(), Some(0));
    assert_eq!(m(16384, 16392, 1).compression_ratio_permille(), Some(1000));
    assert_eq!(m(10, 25, 1).compression_ratio_permille(), Some(2500));
    assert_eq!(m(10, 0, 1).compression_ratio_permille(), Some(0));
    assert_eq!(m(0, 0, 1).compression_ratio_permille(), None);
    assert_eq!(m(0, 8, 1).compression_ratio_permille(), None);
    assert_eq!(m(1, u64::MAX, 1).compression_ratio_permille(), Some(1000 * u64::MAX as u128));
}

#[test]
fn inverse_ratio_is_in_thousandths() {
    assert_eq!(m(1000, 333, 1).inverse_ratio_permille(), Some(3003));
    assert_eq!(m(1, 3, 1).inverse_ratio_permille(), Some(333));
    assert_eq!(m(1_000_000, 4000, 1).inverse_ratio_permille(), Some(250_000));
    assert_eq!(m(10, 0, 1).inverse_ratio_permille(), None);
    assert_eq!(m(0, 10, 1).inverse_ratio_permille(), Some(0));
}

#[test]
fn ratio_and_inverse_multiply_to_one() {
    for (i, o) in [(1000u64, 333u64), (16384, 5000), (7, 3), (1_000_000, 999_999), (12, 12)] {
        let r = m(i, o, 1).compression_ratio_permille().unwrap() as i128;
        let v = m(i, o, 1).inverse_ratio_permille().unwrap() as i128;
        let (i, o) = (i as i128, o as i128);
        let bound = 2000 * (i * i + o * o) + i * o;
        assert!((4 * (r * v - 1_000_000) * i * o).abs() <= bound);
        assert!((2 * (1000 * o - r * i)).abs() <= i);
    }
}

#[test]
fn throughput_is_bytes_per_second() {
    assert_eq!(m(1_000_000, 250_000, 500_000_000).input_throughput(), Some(2_000_000));
    assert_eq!(m(1_000_000, 250_000, 500_000_000).output_throughput(), Some(500_000));
    assert_eq!(m(1, 2, 3_000_000_000).input_throughput(), Some(0));
    assert_eq!(m(1, 2, 3_000_000_000).output_throughput(), Some(1));
    assert_eq!(m(5, 5, 1).input_throughput(), Some(5_000_000_000));
    assert_eq!(m(5, 5, 0).input_throughput(), None);
    assert_eq!(m(5, 5, 0).output_throughput(), None);
    assert_eq!(m(u64::MAX, 0, u128::MAX).input_throughput(), Some(0));
}

#[test]
fn speed_is_in_tenths_of_megabytes_per_second() {
    assert_eq!(speed_decimbps(1_000_000, 500_000_000), Some(20));
    assert_eq!(speed_decimbps(123_456_789, 1_000_000_000), Some(1235));
    assert_eq!(speed_decimbps(49_999, 1_000_000_000), Some(0));
    assert_eq!(speed_decimbps(50_000, 1_000_000_000), Some(1));
    assert_eq!(speed_decimbps(0, 17), Some(0));
    assert_eq!(speed_decimbps(10, 0), None);
}

#[test]
fn measure_keeps_the_positions() {
    let start = std::time::Instant::now();
    let got = measure(12, 34, &start);
    assert_eq!((got.input_len, got.output_len), (12, 34));
    let later = measure(12, 34, &start);
    assert!(later.elapsed_nanos >= got.elapsed_nanos);
}

#[test]
fn benchmark_result_reports_the_compression_leg() {
    let r = BenchmarkResult::new(
        Algorithm::Zstd,
        3,
        m(1_000_000, 250_000, 500_000_000),
        m(250_000, 1_000_000, 100_000_000),
    );
    assert_eq!(r.algorithm, Algorithm::Zstd);
    assert_eq!(r.level, 3);
    assert_eq!(r.uncompressed_len(), 1_000_000);
    assert_eq!(r.compressed_len(), 250_000);
    assert_eq!(r.ratio_permille(), Some(250));
    assert_eq!(r.inverse_ratio_permille(), Some(4000));
    assert_eq!(r.compression_speed_decimbps(), Some(20));
    assert_eq!(r.decompression_speed_decimbps(), Some(100));
    let empty = BenchmarkResult::new(Algorithm::Copy, 0, m(0, 0, 0), m(0, 0, 0));
    assert_eq!(empty.ratio_permille(), None);
    assert_eq!(empty.inverse_ratio_permille(), None);
    assert_eq!(empty.compression_speed_decimbps(), None);
    assert_eq!(empty.decompression_speed_decimbps(), None);
}

#[test]
fn small_gains_are_told_apart() {
    assert!(!gains_little(100_000, 99_900));
    assert!(gains_little(100_000, 99_901));
    assert!(gains_little(100_000, 100_000));
    assert!(gains_little(100_000, 100_500));
    assert!(!gains_little(1000, 999));
    assert!(gains_little(1001, 1000));
    assert!(!gains_little(1, 0));
    assert!(!gains_little(0, 0));
    assert!(gains_little(0, 1));
    assert!(!gains_little(u64::MAX, 0));
    assert!(gains_little(u64::MAX, u64::MAX - 1));
}

#[test]
fn sweep_lists_every_level_of_every_algorithm() {
    assert_eq!(sweep(&[]), vec![]);
    assert_eq!(sweep(&[Algorithm::Snappy]), vec![(Algorithm::Snappy, 0)]);
    assert_eq!(
        sweep(&[Algorithm::Lzav, Algorithm::Copy, Algorithm::Lzav]),
        vec![
            (Algorithm::Lzav, 0),
            (Algorithm::Lzav, 1),
            (Algorithm::Copy, 0),
            (Algorithm::Lzav, 0),
            (Algorithm::Lzav, 1)
        ]
    );
    let plan = sweep(&[Algorithm::Lz4, Algorithm::Zstd]);
    assert_eq!(plan.len(), 18 + 19);
    let mut expected: Vec<(Algorithm, i32)> = Vec::new();
    for level in (-9..=-1).chain(1..=9) {
        expected.push((Algorithm::Lz4, level));
    }
    for level in (-7..=-1).chain(1..=12) {
        expected.push((Algorithm::Zstd, level));
    }
    assert_eq!(plan, expected);
}

#[test]
fn benchmark_measures_both_legs() {
    let input: Vec<u8> = (0..100_000u32).map(|i| (i / 100) as u8).collect();
    let (c, d) = run_benchmark(&input, 16384, &mut Lz4Compressor::new(1), &mut Lz4Decompressor).unwrap();
    assert_eq!(c.input_len, 100_000);
    assert!(c.output_len < 100_000);
    assert_eq!(d.input_len, c.output_len);
    assert_eq!(d.output_len, 100_000);
    let copy = &mut chunk_codec::codec::copy::Copy;
    let (c, d) = run_benchmark(&input, 1000, copy, &mut chunk_codec::codec::copy::Copy).unwrap();
    assert_eq!((c.input_len, c.output_len), (100_000, 100_800));
    assert_eq!((d.input_len, d.output_len), (100_800, 100_000));
    let (c, d) = run_benchmark(&[], 1000, copy, &mut chunk_codec::codec::copy::Copy).unwrap();
    assert_eq!((c.input_len, c.output_len, d.input_len, d.output_len), (0, 0, 0, 0));
    let (c, d) = run_benchmark(&input, 0, copy, &mut chunk_codec::codec::copy::Copy).unwrap();
    assert_eq!((c.input_len, c.output_len, d.input_len, d.output_len), (0, 0, 0, 0));
}

struct Short;

impl Decoder for Short {
    fn decompress(&mut self, src: &[u8], dest: &mut [u8]) -> Result<usize, CodecFailure> {
        let n = src.len().min(dest.len()) / 2;
        dest[..n].copy_from_slice(&src[..n]);
        Ok(n)
    }
}

#[test]
fn benchmark_stops_on_a_decoder_that_comes_up_short() {
    let r = run_benchmark(b"abcdef", 4, &mut chunk_codec::codec::copy::Copy, &mut Short);
    assert_eq!(r, Err(Error::Integrity { expected: 4, actual: 2 }));
}

#[test]
fn sweep_over_lz4_and_zstd_gives_one_result_each() {
    let input: Vec<u8> = b"compressible content, again and again. ".iter().copied().cycle().take(200_000).collect();
    let mut results: Vec<BenchmarkResult> = Vec::new();
    for (algorithm, level) in sweep(&[Algorithm::Lz4, Algorithm::Zstd]) {
        let legs = match (encoder(algorithm, level, None), decoder(algorithm, None)) {
            (Ok(SelectedEncoder::Lz4(mut e)), Ok(SelectedDecoder::Lz4(mut d))) => {
                run_benchmark(&input, 16384, &mut e, &mut d)
            }
            (Ok(SelectedEncoder::Zstd(mut e)), Ok(SelectedDecoder::Zstd(mut d))) => {
                run_benchmark(&input, 16384, &mut e, &mut d)
            }
            _ => panic!("no codec pair"),
        };
        let (c, d) = legs.unwrap();
        results.push(BenchmarkResult::new(algorithm, level, c, d));
    }
    assert_eq!(results.len(), 37);
    let configs: Vec<(Algorithm, i32)> = results.iter().map(|r| (r.algorithm, r.level)).collect();
    assert_eq!(configs, sweep(&[Algorithm::Lz4, Algorithm::Zstd]));
    for r in results {
        assert_eq!(r.uncompressed_len(), 200_000);
        assert_eq!(r.decompression.output_len, 200_000);
        let ratio = r.ratio_permille().unwrap();
        assert!(0 < ratio && ratio <= 1000);
        assert!(r.compressed_len() < 200_000);
    }
}

fn run_all(sweep: &mut Sweep, lens: &[u64]) -> Vec<(Algorithm, i32)> {
    let mut ran = Vec::new();
    let mut k = 0;
    while let Some((algorithm, level)) = sweep.next() {
        ran.push((algorithm, level));
        sweep.record(algorithm, lens[k % lens.len()]);
        k += 1;
    }
    ran
}

#[test]
fn sweep_in_progress_runs_the_whole_plan() {
    let algorithms = [Algorithm::Lz4, Algorithm::Zstd, Algorithm::Lzav];
    let mut s = Sweep::new(&algorithms, false);
    assert_eq!(run_all(&mut s, &[100]), sweep(&algorithms));
    assert_eq!(s.next(), None);
    let mut none = Sweep::new(&[], true);
    assert_eq!(none.next(), None);
}

#[test]
fn sweep_passes_over_levels_that_gain_little() {
    let algorithms = [Algorithm::Brotli, Algorithm::Lzav, Algorithm::Brotli];
    let mut s = Sweep::new(&algorithms, true);
    let ran = run_all(&mut s, &[100_000, 50_000, 49_990, 7, 7]);
    assert_eq!(
        ran,
        vec![
            (Algorithm::Brotli, 1),
            (Algorithm::Brotli, 2),
            (Algorithm::Brotli, 3),
            (Algorithm::Lzav, 0),
            (Algorithm::Lzav, 1),
            (Algorithm::Brotli, 1),
            (Algorithm::Brotli, 2),
            (Algorithm::Brotli, 3),
        ]
    );
}

#[test]
fn sweep_stops_only_on_the_same_algorithm() {
    let mut s = Sweep::new(&[Algorithm::Copy, Algorithm::Snappy, Algorithm::Lzma], true);
    assert_eq!(s.next(), Some((Algorithm::Copy, 0)));
    s.record(Algorithm::Copy, 1000);
    assert_eq!(s.next(), Some((Algorithm::Snappy, 0)));
    s.record(Algorithm::Snappy, 1000);
    assert_eq!(s.next(), Some((Algorithm::Lzma, 0)));
    s.record(Algorithm::Lzma, 1000);
    assert_eq!(s.next(), None);
    assert_eq!(s.next(), None);
}

#[test]
fn sweep_forgets_a_settled_algorithm_when_another_begins() {
    let algorithms = [Algorithm::Lzav, Algorithm::Copy, Algorithm::Lzav];
    let mut s = Sweep::new(&algorithms, true);
    assert_eq!(run_all(&mut s, &[500]), sweep(&algorithms));
}
