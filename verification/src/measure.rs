//! What a timed run of compression or decompression amounts to.
use vstd::prelude::*;

verus! {

/// How many bytes a timed operation read and wrote, and how long it took.
#[derive(Clone, Copy, Debug, PartialEq, Eq, Structural)]
pub struct Measurement {
    /// The position reached in the input.
    pub input_len: u64,
    /// The position reached in the output.
    pub output_len: u64,
    /// Wall-clock time spent, in nanoseconds.
    pub elapsed_nanos: u128,
}

/// A point on the monotonic clock.
#[verifier::external_type_specification]
#[verifier::external_body]
pub struct ExInstant(std::time::Instant);

/// `Instant::now`: the current reading of the monotonic clock, of which
/// nothing can be said beforehand.
pub assume_specification[ std::time::Instant::now ]() -> std::time::Instant;

/// `Instant::elapsed`: the time since the reading was taken.
pub assume_specification[ std::time::Instant::elapsed ](
    start: &std::time::Instant,
) -> core::time::Duration;

/// `Duration::as_nanos`: the whole duration in nanoseconds.
pub assume_specification[ core::time::Duration::as_nanos ](d: &core::time::Duration) -> u128;

/// Puts the positions reached in two streams together with the time that has
/// passed since `start`.
pub fn measure(input_pos: u64, output_pos: u64, start: &std::time::Instant) -> (m: Measurement)
    ensures
        m.input_len == input_pos,
        m.output_len == output_pos,
{
    let elapsed = start.elapsed();
    Measurement { input_len: input_pos, output_len: output_pos, elapsed_nanos: elapsed.as_nanos() }
}

/// `n / d`, rounded to the nearest whole number, halves upwards.
pub open spec fn rounded_div(n: int, d: int) -> int
    recommends
        n >= 0,
        d > 0,
{
    (2 * n + d) / (2 * d)
}

/// A rounded quotient lies within half a unit of the true quotient.
pub proof fn lemma_rounded_div_is_nearest(n: int, d: int)
    requires
        n >= 0,
        d > 0,
    ensures
        rounded_div(n, d) >= 0,
        -d <= 2 * (n - rounded_div(n, d) * d) < d,
{
    let q = (2 * n + d) / (2 * d);
    assert(q >= 0 && 2 * d * q <= 2 * n + d < 2 * d * q + 2 * d) by (nonlinear_arith)
        requires
            n >= 0,
            d > 0,
            q == (2 * n + d) / (2 * d),
    ;
    assert(2 * (n - q * d) == 2 * n - 2 * d * q) by (nonlinear_arith);
}

/// `rounded_div(n, d)`, computed without overflow for any `d` above zero.
pub fn rounded_quotient(n: u128, d: u128) -> (q: u128)
    requires
        d > 0,
        n <= u128::MAX / 4,
    ensures
        q == rounded_div(n as int, d as int),
{
    if d > 2 * n {
        assert((2 * n + d) / (2 * d) == 0) by (nonlinear_arith)
            requires
                d > 2 * n,
                n >= 0,
        ;
        0
    } else {
        (2 * n + d) / (2 * d)
    }
}

impl Measurement {
    /// Output bytes per thousand input bytes, to the nearest whole number.
    pub open spec fn ratio_permille_spec(self) -> int {
        rounded_div(1000 * self.output_len, self.input_len as int)
    }

    /// Input bytes per thousand output bytes, to the nearest whole number.
    pub open spec fn inverse_ratio_permille_spec(self) -> int {
        rounded_div(1000 * self.input_len, self.output_len as int)
    }

    /// `bytes` per second over the elapsed time, to the nearest whole number.
    pub open spec fn per_second_spec(self, bytes: u64) -> int {
        rounded_div(1_000_000_000 * bytes, self.elapsed_nanos as int)
    }

    /// The compression ratio `output_len / input_len` in thousandths, to the
    /// nearest thousandth; `None` where nothing was read.
    pub fn compression_ratio_permille(&self) -> (r: Option<u128>)
        ensures
            match r {
                Some(q) => self.input_len > 0 && q == self.ratio_permille_spec(),
                None => self.input_len == 0,
            },
    {
        if self.input_len == 0 {
            None
        } else {
            Some(rounded_quotient(1000 * (self.output_len as u128), self.input_len as u128))
        }
    }

    /// The inverse ratio `input_len / output_len` in thousandths, to the
    /// nearest thousandth; `None` where nothing was written.
    pub fn inverse_ratio_permille(&self) -> (r: Option<u128>)
        ensures
            match r {
                Some(q) => self.output_len > 0 && q == self.inverse_ratio_permille_spec(),
                None => self.output_len == 0,
            },
    {
        if self.output_len == 0 {
            None
        } else {
            Some(rounded_quotient(1000 * (self.input_len as u128), self.output_len as u128))
        }
    }

    /// Input bytes per second, to the nearest whole number; `None` where no
    /// time was measured.
    pub fn input_throughput(&self) -> (r: Option<u128>)
        ensures
            match r {
                Some(q) => self.elapsed_nanos > 0 && q == self.per_second_spec(self.input_len),
                None => self.elapsed_nanos == 0,
            },
    {
        if self.elapsed_nanos == 0 {
            None
        } else {
            Some(rounded_quotient(1_000_000_000 * (self.input_len as u128), self.elapsed_nanos))
        }
    }

    /// Output bytes per second, to the nearest whole number; `None` where no
    /// time was measured.
    pub fn output_throughput(&self) -> (r: Option<u128>)
        ensures
            match r {
                Some(q) => self.elapsed_nanos > 0 && q == self.per_second_spec(self.output_len),
                None => self.elapsed_nanos == 0,
            },
    {
        if self.elapsed_nanos == 0 {
            None
        } else {
            Some(rounded_quotient(1_000_000_000 * (self.output_len as u128), self.elapsed_nanos))
        }
    }
}

/// The ratio in thousandths is the true ratio to within half a thousandth.
pub proof fn lemma_ratio_is_nearest(m: Measurement)
    requires
        m.input_len > 0,
    ensures
        -m.input_len <= 2 * (1000 * m.output_len - m.ratio_permille_spec() * m.input_len)
            < m.input_len,
{
    lemma_rounded_div_is_nearest(1000 * m.output_len, m.input_len as int);
}

/// The inverse ratio is the inverse of the ratio, as far as rounding both to
/// thousandths allows: the product of the two, in millionths, misses one
/// million by no more than half a thousandth of each ratio's true value and a
/// quarter of a millionth.
pub proof fn lemma_inverse_ratio_inverts(m: Measurement)
    requires
        m.input_len > 0,
        m.output_len > 0,
    ensures
        ({
            let product = m.ratio_permille_spec() * m.inverse_ratio_permille_spec();
            let bound = 2000 * (m.input_len * m.input_len + m.output_len * m.output_len)
                + m.input_len * m.output_len;
            -bound <= 4 * (product - 1_000_000) * (m.input_len * m.output_len) <= bound
        }),
{
    let i = m.input_len as int;
    let o = m.output_len as int;
    let r = m.ratio_permille_spec();
    let v = m.inverse_ratio_permille_spec();
    lemma_rounded_div_is_nearest(1000 * o, i);
    lemma_rounded_div_is_nearest(1000 * i, o);
    let a = r * i - 1000 * o;
    let b = v * o - 1000 * i;
    let p = r * i;
    let q = v * o;
    assert((r * v) * (i * o) == p * q) by (nonlinear_arith)
        requires
            p == r * i,
            q == v * o,
    ;
    assert(p * q == 1_000_000 * (i * o) + 1000 * (o * b) + 1000 * (i * a) + a * b)
        by (nonlinear_arith)
        requires
            p == 1000 * o + a,
            q == 1000 * i + b,
    ;
    assert((r * v - 1_000_000) * (i * o) == (r * v) * (i * o) - 1_000_000 * (i * o))
        by (nonlinear_arith);
    let lhs = (r * v - 1_000_000) * (i * o);
    assert(-(o * o) <= 2 * (o * b) <= o * o) by (nonlinear_arith)
        requires
            -o <= 2 * b <= o,
            o > 0,
    ;
    assert(-(i * i) <= 2 * (i * a) <= i * i) by (nonlinear_arith)
        requires
            -i <= 2 * a <= i,
            i > 0,
    ;
    assert(-(i * o) <= 4 * (a * b) <= i * o) by (nonlinear_arith)
        requires
            -i <= 2 * a <= i,
            -o <= 2 * b <= o,
            i > 0,
            o > 0,
    ;
    assert(4 * (r * v - 1_000_000) * (i * o) == 4 * lhs) by (nonlinear_arith)
        requires
            lhs == (r * v - 1_000_000) * (i * o),
    ;
}

} // verus!
