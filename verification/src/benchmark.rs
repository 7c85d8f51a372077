//! Benchmarking: one configuration measured both ways, and the plan of a
//! sweep over algorithms and levels.
use crate::algorithm::Algorithm;
use crate::codec::{Decoder, Encoder};
use crate::discard::Discard;
use crate::frame::{frames_bytes, lemma_parse_written, Frame};
use crate::measure::{rounded_div, rounded_quotient, Measurement};
use crate::roundtrip::{
    inverts, lemma_lengths_survive, lemma_sure_pair_reads, lemma_sure_pair_writes, pair_is_sure,
};
use crate::sink::Sink;
use crate::stream::{chunks, compress, concat, decodes_frames, decompress, encodes_chunks, Error};
use vstd::prelude::*;

verus! {

/// What one benchmark run of one algorithm at one level came to.
#[derive(Clone, Copy, Debug, PartialEq, Eq, Structural)]
pub struct BenchmarkResult {
    pub algorithm: Algorithm,
    pub level: i32,
    /// The compression leg.
    pub compression: Measurement,
    /// The decompression leg.
    pub decompression: Measurement,
}

impl BenchmarkResult {
    /// Puts the configuration and the two legs together.
    pub fn new(
        algorithm: Algorithm,
        level: i32,
        compression: Measurement,
        decompression: Measurement,
    ) -> (r: BenchmarkResult)
        ensures
            r == (BenchmarkResult { algorithm, level, compression, decompression }),
    {
        BenchmarkResult { algorithm, level, compression, decompression }
    }

    /// The length of the input.
    pub fn uncompressed_len(&self) -> (n: u64)
        ensures
            n == self.compression.input_len,
    {
        self.compression.input_len
    }

    /// The length of what the input was compressed to.
    pub fn compressed_len(&self) -> (n: u64)
        ensures
            n == self.compression.output_len,
    {
        self.compression.output_len
    }

    /// Compressed over uncompressed length, in thousandths.
    pub fn ratio_permille(&self) -> (r: Option<u128>)
        ensures
            match r {
                Some(q) => self.compression.input_len > 0 && q
                    == self.compression.ratio_permille_spec(),
                None => self.compression.input_len == 0,
            },
    {
        self.compression.compression_ratio_permille()
    }

    /// Uncompressed over compressed length, in thousandths.
    pub fn inverse_ratio_permille(&self) -> (r: Option<u128>)
        ensures
            match r {
                Some(q) => self.compression.output_len > 0 && q
                    == self.compression.inverse_ratio_permille_spec(),
                None => self.compression.output_len == 0,
            },
    {
        self.compression.inverse_ratio_permille()
    }

    /// How fast the input was compressed, in tenths of a megabyte per second.
    pub fn compression_speed_decimbps(&self) -> (r: Option<u128>)
        ensures
            match r {
                Some(q) => self.compression.elapsed_nanos > 0 && q == speed_spec(
                    self.compression.input_len,
                    self.compression.elapsed_nanos,
                ),
                None => self.compression.elapsed_nanos == 0,
            },
    {
        speed_decimbps(self.compression.input_len, self.compression.elapsed_nanos)
    }

    /// How fast the output was decompressed, in tenths of a megabyte per
    /// second.
    pub fn decompression_speed_decimbps(&self) -> (r: Option<u128>)
        ensures
            match r {
                Some(q) => self.decompression.elapsed_nanos > 0 && q == speed_spec(
                    self.decompression.output_len,
                    self.decompression.elapsed_nanos,
                ),
                None => self.decompression.elapsed_nanos == 0,
            },
    {
        speed_decimbps(self.decompression.output_len, self.decompression.elapsed_nanos)
    }
}

/// `bytes` in `nanos` nanoseconds as tenths of a megabyte per second, to the
/// nearest tenth: a tenth of a megabyte per second is one byte in ten
/// microseconds.
pub open spec fn speed_spec(bytes: u64, nanos: u128) -> int {
    rounded_div(10_000 * bytes, nanos as int)
}

/// `speed_spec`, computed; `None` where no time was measured.
pub fn speed_decimbps(bytes: u64, nanos: u128) -> (r: Option<u128>)
    ensures
        match r {
            Some(q) => nanos > 0 && q == speed_spec(bytes, nanos),
            None => nanos == 0,
        },
{
    if nanos == 0 {
        None
    } else {
        Some(rounded_quotient(10_000 * (bytes as u128), nanos))
    }
}

/// Whether going from an output of `previous_len` bytes to one of
/// `current_len` bytes gains less than a thousandth of the former.
pub open spec fn gains_little_spec(previous_len: u64, current_len: u64) -> bool {
    1000 * (previous_len - current_len) < previous_len
}

/// Whether going from an output of `previous_len` bytes to one of
/// `current_len` bytes gained less than a thousandth of the former: the
/// point from which further levels of a sweep are of little interest.
pub fn gains_little(previous_len: u64, current_len: u64) -> (b: bool)
    ensures
        b == gains_little_spec(previous_len, current_len),
{
    if current_len >= previous_len {
        previous_len > 0 || current_len > previous_len
    } else {
        1000 * ((previous_len - current_len) as u128) < previous_len as u128
    }
}

/// The configurations of a sweep: for each algorithm in order, each of its
/// levels in order.
pub open spec fn sweep_spec(algorithms: Seq<Algorithm>) -> Seq<(Algorithm, i32)>
    decreases algorithms.len(),
{
    if algorithms.len() == 0 {
        Seq::empty()
    } else {
        sweep_spec(algorithms.drop_last()) + algorithms.last().levels_spec().map(
            |i: int, level: i32| (algorithms.last(), level),
        )
    }
}

/// Lists the configurations that a sweep over `algorithms` runs: one for each
/// algorithm and each of its levels.
pub fn sweep(algorithms: &[Algorithm]) -> (plan: Vec<(Algorithm, i32)>)
    ensures
        plan@ == sweep_spec(algorithms@),
{
    let mut plan: Vec<(Algorithm, i32)> = Vec::new();
    let mut a: usize = 0;
    while a < algorithms.len()
        invariant
            a <= algorithms@.len(),
            plan@ == sweep_spec(algorithms@.take(a as int)),
        decreases algorithms@.len() - a,
    {
        let algorithm = algorithms[a];
        let levels = algorithm.get_compression_levels();
        let ghost before = plan@;
        let mut l: usize = 0;
        while l < levels.len()
            invariant
                l <= levels@.len(),
                levels@ == algorithm.levels_spec(),
                plan@ == before + levels@.take(l as int).map(
                    |i: int, level: i32| (algorithm, level),
                ),
            decreases levels@.len() - l,
        {
            plan.push((algorithm, levels[l]));
            l += 1;
        }
        proof {
            assert(algorithms@.take(a + 1).drop_last() =~= algorithms@.take(a as int));
        }
        a += 1;
    }
    assert(algorithms@.take(a as int) =~= algorithms@);
    plan
}

/// A sweep in progress: which configuration comes next, and which are passed
/// over because the algorithm has stopped gaining.
pub struct Sweep {
    plan: Vec<(Algorithm, i32)>,
    next: usize,
    stop_on_small_gain: bool,
    previous: Option<(Algorithm, u64)>,
    settled: Option<Algorithm>,
}

impl Sweep {
    /// All configurations of the sweep, in order.
    pub closed spec fn plan(&self) -> Seq<(Algorithm, i32)> {
        self.plan@
    }

    /// How many configurations of the plan have been run or passed over.
    pub closed spec fn position(&self) -> nat {
        self.next as nat
    }

    /// Whether the levels of an algorithm that has stopped gaining are
    /// passed over.
    pub closed spec fn stops_on_small_gain(&self) -> bool {
        self.stop_on_small_gain
    }

    /// The algorithm of the last run recorded, and what it compressed to.
    pub closed spec fn previous(&self) -> Option<(Algorithm, u64)> {
        self.previous
    }

    /// The algorithm whose further levels are passed over, if there is one.
    pub closed spec fn settled(&self) -> Option<Algorithm> {
        self.settled
    }

    #[verifier::type_invariant]
    spec fn in_plan(&self) -> bool {
        self.next <= self.plan@.len()
    }

    /// Whether the configuration at `i` is passed over.
    pub open spec fn passes_over(&self, i: int) -> bool {
        self.settled() == Some(self.plan()[i].0)
    }

    /// Whether a run of `algorithm` that compressed to `compressed_len`
    /// bytes settles the algorithm: small gains stop the sweep, the run
    /// before was of the same algorithm, and this one gained little on it.
    pub open spec fn settles(&self, algorithm: Algorithm, compressed_len: u64) -> bool {
        &&& self.stops_on_small_gain()
        &&& self.previous() matches Some((a, len))
        &&& a == algorithm
        &&& gains_little_spec(len, compressed_len)
    }

    /// A sweep over `algorithms` that has run nothing yet.
    pub fn new(algorithms: &[Algorithm], stop_on_small_gain: bool) -> (s: Sweep)
        ensures
            s.plan() == sweep_spec(algorithms@),
            s.position() == 0,
            s.stops_on_small_gain() == stop_on_small_gain,
            s.previous() is None,
            s.settled() is None,
    {
        Sweep {
            plan: sweep(algorithms),
            next: 0,
            stop_on_small_gain,
            previous: None,
            settled: None,
        }
    }

    /// The next configuration to run: the first one from the current
    /// position on that is not passed over. With it a new algorithm begins,
    /// and no algorithm is settled any more. `None` where none is left.
    pub fn next(&mut self) -> (r: Option<(Algorithm, i32)>)
        ensures
            final(self).plan() == old(self).plan(),
            final(self).stops_on_small_gain() == old(self).stops_on_small_gain(),
            final(self).previous() == old(self).previous(),
            old(self).position() <= final(self).position() <= old(self).plan().len(),
            match r {
                Some(config) => {
                    &&& final(self).position() >= 1
                    &&& config == old(self).plan()[final(self).position() - 1]
                    &&& !old(self).passes_over(final(self).position() - 1)
                    &&& forall|i: int|
                        old(self).position() <= i < final(self).position() - 1 ==> old(
                            self
                        ).passes_over(i)
                    &&& final(self).settled() is None
                },
                None => {
                    &&& final(self).position() == old(self).plan().len()
                    &&& forall|i: int|
                        old(self).position() <= i < old(self).plan().len() ==> old(
                            self
                        ).passes_over(i)
                    &&& final(self).settled() == old(self).settled()
                },
            },
    {
        proof {
            use_type_invariant(&*self);
        }
        let mut i: usize = self.next;
        while i < self.plan.len()
            invariant
                self.next <= i <= self.plan@.len(),
                *self == *old(self),
                forall|j: int| old(self).position() <= j < i ==> old(self).passes_over(j),
            decreases self.plan@.len() - i,
        {
            let config = self.plan[i];
            let skip = match self.settled {
                Some(a) => a == config.0,
                None => false,
            };
            if !skip {
                self.next = i + 1;
                self.settled = None;
                return Some(config);
            }
            i += 1;
        }
        self.next = i;
        None
    }

    /// Takes note of a run of `algorithm` that compressed to `compressed_len`
    /// bytes. Where the run settles the algorithm, its further levels are
    /// passed over.
    pub fn record(&mut self, algorithm: Algorithm, compressed_len: u64)
        ensures
            final(self).plan() == old(self).plan(),
            final(self).position() == old(self).position(),
            final(self).stops_on_small_gain() == old(self).stops_on_small_gain(),
            final(self).previous() == Some((algorithm, compressed_len)),
            final(self).settled() == (if old(self).settles(algorithm, compressed_len) {
                Some(algorithm)
            } else {
                old(self).settled()
            }),
    {
        proof {
            use_type_invariant(&*self);
        }
        let settles = self.stop_on_small_gain && match self.previous {
            Some((a, len)) => a == algorithm && gains_little(len, compressed_len),
            None => false,
        };
        if settles {
            self.settled = Some(algorithm);
        }
        self.previous = Some((algorithm, compressed_len));
    }
}

/// A sweep has one configuration for each level of each of its algorithms.
pub open spec fn sweep_len(algorithms: Seq<Algorithm>) -> nat
    decreases algorithms.len(),
{
    if algorithms.len() == 0 {
        0
    } else {
        sweep_len(algorithms.drop_last()) + algorithms.last().levels_spec().len()
    }
}

/// The plan of a sweep is as long as the levels of its algorithms taken
/// together, and each of its configurations pairs an algorithm with one of
/// that algorithm's own levels.
pub proof fn lemma_sweep_covers(algorithms: Seq<Algorithm>)
    ensures
        sweep_spec(algorithms).len() == sweep_len(algorithms),
        forall|k: int|
            0 <= k < sweep_spec(algorithms).len() ==> {
                let (algorithm, level) = #[trigger] sweep_spec(algorithms)[k];
                algorithms.contains(algorithm) && algorithm.levels_spec().contains(level)
            },
    decreases algorithms.len(),
{
    if algorithms.len() > 0 {
        let head = algorithms.drop_last();
        let last = algorithms.last();
        lemma_sweep_covers(head);
        let tail = last.levels_spec().map(|i: int, level: i32| (last, level));
        assert forall|k: int| 0 <= k < sweep_spec(algorithms).len() implies {
            let (algorithm, level) = #[trigger] sweep_spec(algorithms)[k];
            algorithms.contains(algorithm) && algorithm.levels_spec().contains(level)
        } by {
            if k < sweep_spec(head).len() {
                let (algorithm, level) = sweep_spec(head)[k];
                let j = choose|j: int| 0 <= j < head.len() && head[j] == algorithm;
                assert(algorithms[j] == algorithm);
            } else {
                let j = k - sweep_spec(head).len();
                assert(sweep_spec(algorithms)[k] == tail[j]);
                assert(last.levels_spec()[j] == tail[j].1);
                assert(algorithms[algorithms.len() - 1] == last);
            }
        }
    }
}

/// Runs one configuration both ways: compresses `input` in chunks into
/// memory, then decompresses what came of it into a sink that only counts.
/// Returns the measurement of each leg. What was written is never found cut
/// short, and what comes out is as long as what went in, whatever the codec.
pub fn run_benchmark<E: Encoder, D: Decoder>(
    input: &[u8],
    chunk_size: usize,
    encoder: &mut E,
    decoder: &mut D,
) -> (r: Result<(Measurement, Measurement), Error>)
    ensures
        match r {
            Ok((compression, decompression)) => {
                &&& compression.input_len == (if chunk_size == 0 {
                    0
                } else {
                    input@.len()
                })
                &&& decompression.input_len == compression.output_len
                &&& decompression.output_len == compression.input_len
                &&& (exists|frames: Seq<Frame>|
                    {
                        &&& #[trigger] encodes_chunks(
                            old(encoder),
                            chunks(input@, chunk_size as nat),
                            frames,
                        )
                        &&& frames_bytes(frames).len() == compression.output_len
                    })
            },
            Err(Error::Truncated) => false,
            Err(Error::Integrity { expected, actual }) => !inverts(old(decoder), old(encoder)),
            Err(_) => input@.len() > 0 && chunk_size > 0,
        },
        pair_is_sure(old(encoder), old(decoder), input@, chunk_size as nat) ==> r is Ok,
{
    let mut packed: Vec<u8> = Vec::with_capacity(input.len());
    let ghost empty = packed;
    let ghost sure = pair_is_sure(old(encoder), old(decoder), input@, chunk_size as nat);
    proof {
        if sure {
            lemma_sure_pair_writes(
                old(encoder),
                old(decoder),
                &packed,
                input@,
                chunk_size as nat,
            );
        }
    }
    let compression = match compress(input, &mut packed, chunk_size, encoder) {
        Ok(m) => m,
        Err(e) => {
            return Err(e);
        },
    };
    let ghost frames = choose|frames: Seq<Frame>|
        {
            &&& #[trigger] encodes_chunks(old(encoder), chunks(input@, chunk_size as nat), frames)
            &&& packed.extends(&empty, frames_bytes(frames))
        };
    proof {
        lemma_parse_written(frames);
    }
    let mut sink = Discard::new();
    let ghost fresh = sink;
    proof {
        if sure {
            lemma_sure_pair_reads(
                old(encoder),
                old(decoder),
                &sink,
                input@,
                chunk_size as nat,
                frames,
            );
        }
    }
    let decompression = match decompress(packed.as_slice(), &mut sink, decoder) {
        Ok(m) => m,
        Err(e) => {
            proof {
                if inverts(old(decoder), old(encoder)) {
                    lemma_sound_frames(old(encoder), old(decoder), input@, chunk_size as nat, frames);
                }
            }
            return Err(e);
        },
    };
    proof {
        let outs = choose|outs: Seq<Seq<u8>>|
            {
                &&& #[trigger] decodes_frames(old(decoder), frames, outs)
                &&& sink.extends(&fresh, concat(outs))
            };
        if chunk_size > 0 {
            lemma_lengths_survive(
                old(encoder),
                old(decoder),
                input@,
                chunk_size as nat,
                frames,
                outs,
            );
        }
    }
    Ok((compression, decompression))
}

/// Where the decoder undoes the encoder, whatever it makes of a frame that
/// the writer made has the length that the frame declares.
proof fn lemma_sound_frames<E: Encoder, D: Decoder>(
    encoder: &E,
    decoder: &D,
    input: Seq<u8>,
    chunk_size: nat,
    frames: Seq<Frame>,
)
    requires
        inverts(decoder, encoder),
        encodes_chunks(encoder, chunks(input, chunk_size), frames),
    ensures
        forall|k: int, len: nat|
            0 <= k < frames.len() && #[trigger] crate::stream::comes_out_at(
                decoder,
                frames[k],
                len,
            ) ==> len == frames[k].uncompressed_len,
{
    let parts = chunks(input, chunk_size);
    assert forall|k: int, len: nat|
        0 <= k < frames.len() && #[trigger] crate::stream::comes_out_at(
            decoder,
            frames[k],
            len,
        ) implies len == frames[k].uncompressed_len by {
        assert(encoder.may_produce(parts[k], frames[k].payload));
    }
}

} // verus!
