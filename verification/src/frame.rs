//! The chunked container format: a sequence of length-prefixed frames with no
//! file-level header, footer or checksum.
//!
//! Every frame is `(uncompressed_len: u32 LE, compressed_len: u32 LE, payload)`.
use byteorder::{ByteOrder, LittleEndian};
use vstd::prelude::*;

verus! {

/// Number of bytes in a frame header: two little-endian `u32` lengths.
pub const FRAME_HEADER_LEN: usize = 8;

/// The four bytes that stand for `x`, least significant first.
pub open spec fn le_bytes(x: u32) -> Seq<u8> {
    seq![
        (x as int % 256) as u8,
        (x as int / 256 % 256) as u8,
        (x as int / 65536 % 256) as u8,
        (x as int / 16777216) as u8,
    ]
}

/// The number that the first four bytes of `s` stand for, least significant first.
pub open spec fn le_value(s: Seq<u8>) -> int
    recommends
        s.len() >= 4,
{
    s[0] as int + 256 * (s[1] as int) + 65536 * (s[2] as int) + 16777216 * (s[3] as int)
}

/// One unit of the container: the length the payload must decompress to, and the payload.
pub struct Frame {
    pub uncompressed_len: u32,
    pub payload: Seq<u8>,
}

/// A frame can be written down only if its payload length fits the header field.
pub open spec fn frame_fits(f: Frame) -> bool {
    f.payload.len() <= u32::MAX
}

/// Every frame of `fs` can be written down.
pub open spec fn frames_fit(fs: Seq<Frame>) -> bool {
    forall|i: int| 0 <= i < fs.len() ==> frame_fits(#[trigger] fs[i])
}

/// The eight header bytes of a frame.
pub open spec fn header_bytes(uncompressed_len: u32, compressed_len: u32) -> Seq<u8> {
    le_bytes(uncompressed_len) + le_bytes(compressed_len)
}

/// The bytes of one frame: header, then payload.
pub open spec fn frame_bytes(f: Frame) -> Seq<u8> {
    header_bytes(f.uncompressed_len, f.payload.len() as u32) + f.payload
}

/// The bytes of a sequence of frames, back to back.
pub open spec fn frames_bytes(fs: Seq<Frame>) -> Seq<u8>
    decreases fs.len(),
{
    if fs.len() == 0 {
        Seq::empty()
    } else {
        frames_bytes(fs.drop_last()) + frame_bytes(fs.last())
    }
}

/// Whether `input` starts with one complete frame.
pub open spec fn has_frame(input: Seq<u8>) -> bool {
    input.len() >= 8 && input.len() - 8 >= le_value(input.subrange(4, 8))
}

/// The frame at the start of `input`.
pub open spec fn first_frame(input: Seq<u8>) -> Frame
    recommends
        has_frame(input),
{
    Frame {
        uncompressed_len: le_value(input.subrange(0, 4)) as u32,
        payload: input.subrange(8, 8 + le_value(input.subrange(4, 8))),
    }
}

/// What is left of `input` behind its first frame.
pub open spec fn after_first_frame(input: Seq<u8>) -> Seq<u8>
    recommends
        has_frame(input),
{
    input.skip(8 + le_value(input.subrange(4, 8)))
}

/// The complete frames that `input` starts with, up to the first place where
/// no complete frame follows.
pub open spec fn parse_prefix(input: Seq<u8>) -> Seq<Frame>
    decreases input.len(),
{
    if has_frame(input) {
        seq![first_frame(input)] + parse_prefix(after_first_frame(input))
    } else {
        Seq::empty()
    }
}

/// Whether `input` is nothing but complete frames.
pub open spec fn is_framed(input: Seq<u8>) -> bool
    decreases input.len(),
{
    if input.len() == 0 {
        true
    } else if has_frame(input) {
        is_framed(after_first_frame(input))
    } else {
        false
    }
}

/// The frames of `input`, where all of it is frames.
pub open spec fn parse_frames(input: Seq<u8>) -> Option<Seq<Frame>> {
    if is_framed(input) {
        Some(parse_prefix(input))
    } else {
        None
    }
}

/// `le_value` undoes `le_bytes`, and the bytes are four.
pub proof fn lemma_le_round_trip(x: u32)
    ensures
        le_bytes(x).len() == 4,
        le_value(le_bytes(x)) == x,
{
}

/// Four bytes stand for a number that fits `u32`, and `le_bytes` gives them back.
pub proof fn lemma_le_value_bytes(s: Seq<u8>)
    requires
        s.len() == 4,
    ensures
        0 <= le_value(s) <= u32::MAX,
        le_bytes(le_value(s) as u32) == s,
{
    let (a, b, c, d) = (s[0] as int, s[1] as int, s[2] as int, s[3] as int);
    let v = le_value(s);
    lemma_split(a, b + 256 * c + 65536 * d);
    lemma_split(b, c + 256 * d);
    lemma_split(c, d);
    assert(v / 65536 == c + 256 * d) by {
        assert(v / 65536 == (v / 256) / 256) by (nonlinear_arith)
            requires
                v >= 0,
        ;
    }
    assert(v / 16777216 == d) by {
        assert(v / 16777216 == (v / 65536) / 256) by (nonlinear_arith)
            requires
                v >= 0,
        ;
    }
}

/// A number below 256 with a multiple of 256 on top comes apart by division.
proof fn lemma_split(low: int, high: int)
    requires
        0 <= low < 256,
        0 <= high,
    ensures
        (low + 256 * high) % 256 == low,
        (low + 256 * high) / 256 == high,
{
}

/// The bytes of frames behind a first frame are the first frame's bytes, then
/// the bytes of the others.
pub proof fn lemma_frames_bytes_front(f: Frame, fs: Seq<Frame>)
    ensures
        frames_bytes(seq![f] + fs) == frame_bytes(f) + frames_bytes(fs),
    decreases fs.len(),
{
    let all = seq![f] + fs;
    if fs.len() == 0 {
        assert(frames_bytes(all.drop_last()) =~= Seq::<u8>::empty());
    } else {
        lemma_frames_bytes_front(f, fs.drop_last());
        assert(all.drop_last() =~= seq![f] + fs.drop_last());
    }
}

/// A frame that fits its header is read back from the front of any input
/// that starts with its bytes, and what follows it is left over.
pub proof fn lemma_first_frame(f: Frame, rest: Seq<u8>)
    requires
        frame_fits(f),
    ensures
        has_frame(frame_bytes(f) + rest),
        first_frame(frame_bytes(f) + rest) == f,
        after_first_frame(frame_bytes(f) + rest) == rest,
{
    let input = frame_bytes(f) + rest;
    let n = f.payload.len() as u32;
    lemma_le_round_trip(n);
    assert(input.subrange(8, 8 + n) =~= f.payload);
}

/// Reading what was written gives the same frames: the bytes of frames that
/// fit their headers are nothing but complete frames, and parse to those
/// frames.
pub proof fn lemma_parse_written(fs: Seq<Frame>)
    requires
        frames_fit(fs),
    ensures
        is_framed(frames_bytes(fs)),
        parse_prefix(frames_bytes(fs)) == fs,
        parse_frames(frames_bytes(fs)) == Some(fs),
    decreases fs.len(),
{
    if fs.len() > 0 {
        let f = fs[0];
        let tail = fs.drop_first();
        assert(fs =~= seq![f] + tail);
        lemma_frames_bytes_front(f, tail);
        lemma_first_frame(f, frames_bytes(tail));
        lemma_parse_written(tail);
    }
}

/// Writing what was read gives the same bytes: an input that is nothing but
/// complete frames is the bytes of the frames it parses to, and these fit
/// their headers.
pub proof fn lemma_write_parsed(input: Seq<u8>)
    requires
        is_framed(input),
    ensures
        frames_fit(parse_prefix(input)),
        frames_bytes(parse_prefix(input)) == input,
    decreases input.len(),
{
    if input.len() > 0 {
        let f = first_frame(input);
        let rest = after_first_frame(input);
        lemma_write_parsed(rest);
        lemma_le_value_bytes(input.subrange(0, 4));
        lemma_le_value_bytes(input.subrange(4, 8));
        lemma_frames_bytes_front(f, parse_prefix(rest));
    }
}

/// Little-endian bytes of `n`, from `byteorder::LittleEndian::write_u32` on a
/// four-byte buffer: byte `i` of the result is bits `8i..8i+8` of `n`.
#[verifier::external_body]
fn u32_to_le(n: u32) -> (b: [u8; 4])
    ensures
        b@ == le_bytes(n),
{
    let mut b = [0u8; 4];
    LittleEndian::write_u32(&mut b, n);
    b
}

/// The number in the first four bytes of `bytes`, from
/// `byteorder::LittleEndian::read_u32`, which panics on fewer than four bytes.
#[verifier::external_body]
fn u32_from_le(bytes: &[u8]) -> (n: u32)
    requires
        bytes@.len() >= 4,
    ensures
        n == le_value(bytes@),
{
    LittleEndian::read_u32(bytes)
}

/// Writes the header of a frame into a fresh buffer.
pub fn encode_header(uncompressed_len: u32, compressed_len: u32) -> (header: Vec<u8>)
    ensures
        header@ == header_bytes(uncompressed_len, compressed_len),
        header@.len() == 8,
{
    let a = u32_to_le(uncompressed_len);
    let b = u32_to_le(compressed_len);
    let mut header: Vec<u8> = Vec::with_capacity(FRAME_HEADER_LEN);
    let mut i: usize = 0;
    while i < 4
        invariant
            i <= 4,
            a@ == le_bytes(uncompressed_len),
            header@ == le_bytes(uncompressed_len).subrange(0, i as int),
        decreases 4 - i,
    {
        header.push(a[i]);
        i += 1;
    }
    let mut j: usize = 0;
    while j < 4
        invariant
            j <= 4,
            b@ == le_bytes(compressed_len),
            header@ == le_bytes(uncompressed_len) + le_bytes(compressed_len).subrange(0, j as int),
        decreases 4 - j,
    {
        header.push(b[j]);
        j += 1;
    }
    header
}

/// Reads the two lengths of the header that `input` holds at `pos`, or `None`
/// where fewer than eight bytes are left there.
pub fn decode_header(input: &[u8], pos: usize) -> (r: Option<(u32, u32)>)
    requires
        pos <= input@.len(),
    ensures
        match r {
            Some((uncompressed_len, compressed_len)) => {
                &&& input@.len() - pos >= 8
                &&& uncompressed_len == le_value(input@.skip(pos as int).subrange(0, 4))
                &&& compressed_len == le_value(input@.skip(pos as int).subrange(4, 8))
            },
            None => input@.len() - pos < 8,
        },
{
    if input.len() - pos < FRAME_HEADER_LEN {
        return None;
    }
    let first = vstd::slice::slice_subrange(input, pos, pos + 4);
    let second = vstd::slice::slice_subrange(input, pos + 4, pos + 8);
    let uncompressed_len = u32_from_le(first);
    let compressed_len = u32_from_le(second);
    Some((uncompressed_len, compressed_len))
}

} // verus!
