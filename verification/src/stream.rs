//! Writing an input out as frames, chunk by chunk, and reading frames back.
use crate::codec::{same_decoder, same_encoder, Decoder, Encoder};
use crate::frame::{
    after_first_frame, decode_header, encode_header, first_frame, frame_bytes, frame_fits,
    frames_bytes, has_frame, header_bytes, is_framed, lemma_le_value_bytes,
    parse_prefix, Frame, FRAME_HEADER_LEN,
};
use crate::measure::{measure, Measurement};
use crate::sink::Sink;
use vstd::prelude::*;

verus! {

/// Why writing or reading a container stopped.
#[derive(Clone, Copy, Debug, PartialEq, Eq, Structural)]
pub enum Error {
    /// A chunk or a payload is longer than a header field can say.
    FrameTooLarge,
    /// The codec refused to compress or decompress.
    Codec,
    /// The input ends in the middle of a frame.
    Truncated,
    /// A payload decompressed to another length than its frame declares.
    Integrity { expected: u32, actual: usize },
    /// The output took no more bytes.
    Sink,
}

/// The chunks that `input` is cut into: each `chunk_size` bytes long but for
/// the last, which holds what is left. No chunks at all where `chunk_size`
/// is zero.
pub open spec fn chunks(input: Seq<u8>, chunk_size: nat) -> Seq<Seq<u8>>
    decreases input.len(),
{
    if input.len() == 0 || chunk_size == 0 {
        Seq::empty()
    } else if input.len() <= chunk_size {
        seq![input]
    } else {
        seq![input.take(chunk_size as int)] + chunks(input.skip(chunk_size as int), chunk_size)
    }
}

/// The byte strings of `parts`, back to back.
pub open spec fn concat(parts: Seq<Seq<u8>>) -> Seq<u8>
    decreases parts.len(),
{
    if parts.len() == 0 {
        Seq::empty()
    } else {
        concat(parts.drop_last()) + parts.last()
    }
}

/// `frames` holds one frame for each chunk, in order: it declares the
/// chunk's length, and its payload is one that `encoder` may produce for the
/// chunk and that fits a header field.
pub open spec fn encodes_chunks<E: Encoder>(
    encoder: &E,
    parts: Seq<Seq<u8>>,
    frames: Seq<Frame>,
) -> bool {
    &&& frames.len() == parts.len()
    &&& forall|i: int|
        0 <= i < frames.len() ==> {
            &&& (#[trigger] frames[i]).uncompressed_len == parts[i].len()
            &&& frame_fits(frames[i])
            &&& encoder.may_produce(parts[i], frames[i].payload)
        }
}

/// `frames` holds one frame for each of the first chunks, and not for all:
/// writing stopped at the chunk behind them.
pub open spec fn encodes_some_chunks<E: Encoder>(
    encoder: &E,
    parts: Seq<Seq<u8>>,
    frames: Seq<Frame>,
) -> bool {
    frames.len() < parts.len() && encodes_chunks(encoder, parts.take(frames.len() as int), frames)
}

/// The encoder owes no success on `chunk`: where it promises a bound for the
/// chunk size, it does not promise to compress the chunk into that much room.
pub open spec fn refused_by<E: Encoder>(encoder: &E, chunk_size: nat, chunk: Seq<u8>) -> bool {
    encoder.sure_bound(chunk_size) matches Some(bound) ==> !encoder.surely_compresses(
        chunk,
        bound,
    )
}

/// `outs` holds, for each of `frames` in order, a byte string that `decoder`
/// may make of the frame's payload in the room that the frame declares, and
/// that is exactly as long as the frame declares.
pub open spec fn decodes_frames<D: Decoder>(
    decoder: &D,
    frames: Seq<Frame>,
    outs: Seq<Seq<u8>>,
) -> bool {
    &&& outs.len() == frames.len()
    &&& forall|i: int|
        0 <= i < outs.len() ==> {
            &&& (#[trigger] outs[i]).len() == frames[i].uncompressed_len
            &&& decoder.may_decode(frames[i].payload, frames[i].uncompressed_len as nat, outs[i])
        }
}

/// The lengths that `frames` declare, added up.
pub open spec fn declared_len(frames: Seq<Frame>) -> nat
    decreases frames.len(),
{
    if frames.len() == 0 {
        0
    } else {
        declared_len(frames.drop_last()) + frames.last().uncompressed_len as nat
    }
}

/// `decoder` may make `len` bytes of the payload of `f` in the room that `f`
/// declares.
pub open spec fn comes_out_at<D: Decoder>(decoder: &D, f: Frame, len: nat) -> bool {
    exists|out: Seq<u8>| #[trigger]
        decoder.may_decode(f.payload, f.uncompressed_len as nat, out) && out.len() == len
}

/// Where writing `input` out is sure to succeed: the encoder promises a bound
/// for the chunk size, and to compress every chunk into that much room; that
/// bound and every chunk's length fit a header field; and the output has room
/// for as many frames of the longest kind as there are chunks. With nothing
/// to write, success is sure.
#[verifier::opaque]
pub open spec fn compress_is_owed<E: Encoder, W: Sink>(
    encoder: &E,
    output: &W,
    input: Seq<u8>,
    chunk_size: nat,
) -> bool {
    let parts = chunks(input, chunk_size);
    parts.len() == 0 || {
        &&& encoder.sure_bound(chunk_size) matches Some(bound)
        &&& bound <= u32::MAX
        &&& chunk_size <= u32::MAX || input.len() <= u32::MAX
        &&& forall|i: int|
            0 <= i < parts.len() ==> encoder.surely_compresses(#[trigger] parts[i], bound)
        &&& output.takes(room_for(parts.len(), 8 + bound))
    }
}

/// Where reading `input` back is sure to succeed: the input is nothing but
/// complete frames; of each payload the decoder promises to make something,
/// and can make nothing but what is as long as the frame declares; and the
/// output has room for what the frames declare.
#[verifier::opaque]
pub open spec fn decompress_is_owed<D: Decoder, W: Sink>(
    decoder: &D,
    output: &W,
    input: Seq<u8>,
) -> bool {
    let frames = parse_prefix(input);
    &&& is_framed(input)
    &&& forall|i: int|
        0 <= i < frames.len() ==> decoder.surely_decodes(
            (#[trigger] frames[i]).payload,
            frames[i].uncompressed_len as nat,
        )
    &&& forall|i: int, len: nat|
        0 <= i < frames.len() && #[trigger] comes_out_at(decoder, frames[i], len) ==> len
            == frames[i].uncompressed_len
    &&& output.takes(declared_len(frames))
}

/// Room for `k` strings of `t` bytes each.
#[verifier::opaque]
pub closed spec fn room_for(k: nat, t: nat) -> nat {
    k * t
}

/// Room for `k` strings of `t` bytes is `k * t` bytes.
pub proof fn lemma_room_for(k: nat, t: nat)
    ensures
        room_for(k, t) == k * t,
{
    reveal(room_for);
}

/// A sink with room for `k` strings of up to `t` bytes has room for one.
proof fn lemma_takes_one<W: Sink>(sink: &W, k: nat, t: nat, n: nat)
    requires
        k >= 1,
        n <= t,
        sink.takes(room_for(k, t)),
    ensures
        sink.takes(n),
{
    reveal(room_for);
    assert(k * t == n + ((k - 1) * t + (t - n))) by (nonlinear_arith)
        requires
            k >= 1,
            n <= t,
    ;
    assert((k - 1) * t + (t - n) >= 0) by (nonlinear_arith)
        requires
            k >= 1,
            n <= t,
    ;
    sink.lemma_takes_less(n, ((k - 1) * t + (t - n)) as nat);
}

/// A sink with room for `k` strings of up to `t` bytes has, after taking one,
/// room for the others.
proof fn lemma_takes_others<W: Sink>(after: &W, before: &W, bytes: Seq<u8>, k: nat, t: nat)
    requires
        k >= 1,
        bytes.len() <= t,
        before.takes(room_for(k, t)),
        after.extends(before, bytes),
    ensures
        after.takes(room_for((k - 1) as nat, t)),
{
    reveal(room_for);
    let rest = (k - 1) * t;
    assert(rest >= 0 && k * t == (bytes.len() + rest) + (t - bytes.len())) by (nonlinear_arith)
        requires
            k >= 1,
            bytes.len() <= t,
            rest == (k - 1) * t,
    ;
    before.lemma_takes_less(bytes.len() + rest as nat, (t - bytes.len()) as nat);
    after.lemma_extends_takes(before, bytes, rest as nat);
}

/// The lengths that frames behind a first frame declare are the first
/// frame's and the others'.
pub proof fn lemma_declared_len_front(f: Frame, frames: Seq<Frame>)
    ensures
        declared_len(seq![f] + frames) == f.uncompressed_len + declared_len(frames),
    decreases frames.len(),
{
    let all = seq![f] + frames;
    if frames.len() == 0 {
        assert(declared_len(all.drop_last()) == 0);
    } else {
        lemma_declared_len_front(f, frames.drop_last());
        assert(all.drop_last() =~= seq![f] + frames.drop_last());
    }
}

/// Appends one frame to `output`: the header for `uncompressed_len` and the
/// length of `payload`, then `payload`. Fails where the payload is too long
/// for a header, and where the output has no room for all of the frame; in
/// the latter case the header alone may have been written.
pub fn write_frame<W: Sink>(output: &mut W, uncompressed_len: u32, payload: &[u8]) -> (r: Result<
    (),
    Error,
>)
    ensures
        match r {
            Ok(()) => {
                &&& payload@.len() <= u32::MAX
                &&& old(output).takes(8 + payload@.len())
                &&& final(output).extends(
                    old(output),
                    frame_bytes(Frame { uncompressed_len, payload: payload@ }),
                )
            },
            Err(Error::FrameTooLarge) => payload@.len() > u32::MAX && *final(output) == *old(
                output,
            ),
            Err(Error::Sink) => {
                &&& payload@.len() <= u32::MAX
                &&& !old(output).takes(8 + payload@.len())
                &&& if old(output).takes(8) {
                    final(output).extends(
                        old(output),
                        header_bytes(uncompressed_len, payload@.len() as u32),
                    )
                } else {
                    *final(output) == *old(output)
                }
            },
            Err(_) => false,
        },
{
    if payload.len() > u32::MAX as usize {
        return Err(Error::FrameTooLarge);
    }
    let header = encode_header(uncompressed_len, payload.len() as u32);
    let ghost before = *output;
    if output.write_all(header.as_slice()).is_err() {
        proof {
            if before.takes(8 + payload@.len()) {
                before.lemma_takes_less(8, payload@.len());
            }
        }
        return Err(Error::Sink);
    }
    let ghost mid = *output;
    proof {
        mid.lemma_extends_takes(&before, header@, payload@.len());
    }
    if output.write_all(payload).is_err() {
        return Err(Error::Sink);
    }
    proof {
        output.lemma_extends_twice(&mid, &before, header@, payload@);
    }
    Ok(())
}

/// The chunks behind position `pos` start with the chunk at `pos`.
proof fn lemma_chunks_step(input: Seq<u8>, chunk_size: nat, pos: int, take: int)
    requires
        0 <= pos < input.len(),
        chunk_size > 0,
        take == if input.len() - pos <= chunk_size { input.len() - pos } else { chunk_size as int },
    ensures
        chunks(input.skip(pos), chunk_size) == seq![input.subrange(pos, pos + take)] + chunks(
            input.skip(pos + take),
            chunk_size,
        ),
{
    let rest = input.skip(pos);
    if rest.len() <= chunk_size {
    } else {
        assert(rest.take(take) =~= input.subrange(pos, pos + take));
        assert(rest.skip(take) =~= input.skip(pos + take));
    }
}

/// A sequence of frames with one more frame is the bytes of both.
pub proof fn lemma_frames_bytes_push(frames: Seq<Frame>, f: Frame)
    ensures
        frames_bytes(frames.push(f)) == frames_bytes(frames) + frame_bytes(f),
{
    assert(frames.push(f).drop_last() =~= frames);
}

/// Cuts `input` into chunks of `chunk_size` bytes, compresses each with
/// `encoder` and appends it to `output` as one frame. The scratch buffer that
/// takes the compressed chunks is sized once, from the encoder's bound for
/// `chunk_size`. An empty input, or a chunk size of zero, writes no frame and
/// asks nothing of the encoder. Stops at the first chunk that the encoder
/// refuses, whose frame a header cannot describe, or for which the output has
/// no room; the frames of the chunks before it have then been written and,
/// where room ran out, at most the header of its own frame.
pub fn compress<E: Encoder, W: Sink>(
    input: &[u8],
    output: &mut W,
    chunk_size: usize,
    encoder: &mut E,
) -> (r: Result<Measurement, Error>)
    ensures
        match r {
            Ok(m) => {
                &&& exists|frames: Seq<Frame>|
                    {
                        &&& #[trigger] encodes_chunks(
                            old(encoder),
                            chunks(input@, chunk_size as nat),
                            frames,
                        )
                        &&& final(output).extends(old(output), frames_bytes(frames))
                    }
                &&& m.input_len == (if chunk_size == 0 {
                    0
                } else {
                    input@.len()
                })
                &&& m.output_len == final(output).offset()
            },
            Err(Error::FrameTooLarge) => exists|frames: Seq<Frame>|
                {
                    &&& #[trigger] encodes_some_chunks(
                        old(encoder),
                        chunks(input@, chunk_size as nat),
                        frames,
                    )
                    &&& final(output).extends(old(output), frames_bytes(frames))
                },
            Err(Error::Codec) => exists|frames: Seq<Frame>|
                {
                    &&& #[trigger] encodes_some_chunks(
                        old(encoder),
                        chunks(input@, chunk_size as nat),
                        frames,
                    )
                    &&& final(output).extends(old(output), frames_bytes(frames))
                    &&& refused_by(
                        old(encoder),
                        chunk_size as nat,
                        chunks(input@, chunk_size as nat)[frames.len() as int],
                    )
                },
            Err(Error::Sink) => exists|frames: Seq<Frame>, payload: Seq<u8>|
                {
                    &&& #[trigger] encodes_some_chunks(
                        old(encoder),
                        chunks(input@, chunk_size as nat),
                        frames,
                    )
                    &&& #[trigger] old(encoder).may_produce(
                        chunks(input@, chunk_size as nat)[frames.len() as int],
                        payload,
                    )
                    &&& payload.len() <= u32::MAX
                    &&& old(output).takes(frames_bytes(frames).len())
                    &&& !old(output).takes(frames_bytes(frames).len() + 8 + payload.len())
                    &&& final(output).offset() <= old(output).offset() + frames_bytes(
                        frames,
                    ).len() + 8
                    &&& final(output).offset() >= old(output).offset() + frames_bytes(
                        frames,
                    ).len()
                },
            Err(_) => false,
        },
        (input@.len() > u32::MAX && chunk_size > u32::MAX) ==> r == Err::<Measurement, Error>(
            Error::FrameTooLarge,
        ),
        compress_is_owed(old(encoder), old(output), input@, chunk_size as nat) ==> r is Ok,
        same_encoder(final(encoder), old(encoder)),
{
    let start = std::time::Instant::now();
    let ghost mut frames: Seq<Frame> = Seq::empty();
    let ghost mut done: Seq<Seq<u8>> = Seq::empty();
    let ghost parts = chunks(input@, chunk_size as nat);
    let ghost owed = compress_is_owed(old(encoder), old(output), input@, chunk_size as nat);
    let ghost room: nat = match old(encoder).sure_bound(chunk_size as nat) {
        Some(b) => 8 + b,
        None => 8,
    };
    proof {
        output.lemma_extends_by_nothing();
        assert(chunks(input@, chunk_size as nat) =~= done + chunks(
            input@.skip(0),
            chunk_size as nat,
        )) by {
            assert(input@.skip(0) =~= input@);
        }
    }
    if input.len() == 0 || chunk_size == 0 {
        assert(encodes_chunks(old(encoder), chunks(input@, chunk_size as nat), frames));
        return Ok(measure(0, output.stream_position(), &start));
    }
    proof {
        reveal(compress_is_owed);
        assert(encodes_some_chunks(old(encoder), chunks(input@, chunk_size as nat), frames));
    }
    if input.len() > u32::MAX as usize && chunk_size > u32::MAX as usize {
        return Err(Error::FrameTooLarge);
    }
    let bound = match encoder.compressed_len_bound(chunk_size) {
        Ok(bound) => bound,
        Err(_) => {
            return Err(Error::Codec);
        },
    };
    let mut scratch: Vec<u8> = Vec::new();
    scratch.resize(bound, 0u8);
    let mut pos: usize = 0;
    while pos < input.len()
        invariant
            pos <= input@.len(),
            chunk_size > 0,
            input@.len() <= u32::MAX || chunk_size <= u32::MAX,
            same_encoder(encoder, old(encoder)),
            parts == chunks(input@, chunk_size as nat),
            parts == done + chunks(input@.skip(pos as int), chunk_size as nat),
            encodes_chunks(old(encoder), done, frames),
            output.extends(old(output), frames_bytes(frames)),
            owed == compress_is_owed(old(encoder), old(output), input@, chunk_size as nat),
            old(encoder).sure_bound(chunk_size as nat) matches Some(b) ==> scratch@.len() == b,
            owed ==> room == 8 + scratch@.len(),
            owed ==> scratch@.len() <= u32::MAX,
            owed ==> forall|i: int|
                0 <= i < parts.len() ==> old(encoder).surely_compresses(
                    #[trigger] parts[i],
                    scratch@.len(),
                ),
            owed ==> output.takes(room_for((parts.len() - done.len()) as nat, room)),
        decreases input@.len() - pos,
    {
        let left = input.len() - pos;
        let take = if left <= chunk_size { left } else { chunk_size };
        let chunk = vstd::slice::slice_subrange(input, pos, pos + take);
        let ghost left_over = (parts.len() - done.len()) as nat;
        proof {
            lemma_chunks_step(input@, chunk_size as nat, pos as int, take as int);
            assert(encodes_some_chunks(old(encoder), parts, frames));
            output.lemma_extends_position(old(output), frames_bytes(frames));
            assert(parts[done.len() as int] == chunk@);
        }
        let count = match encoder.compress(chunk, scratch.as_mut_slice()) {
            Ok(count) => count,
            Err(_) => {
                assert(refused_by(old(encoder), chunk_size as nat, parts[done.len() as int]));
                return Err(Error::Codec);
            },
        };
        let payload = vstd::slice::slice_subrange(scratch.as_slice(), 0, count);
        let ghost before = *output;
        proof {
            if owed {
                lemma_takes_one(&before, left_over, room, 8 + payload@.len());
            }
        }
        match write_frame(output, take as u32, payload) {
            Ok(()) => {},
            Err(e) => {
                proof {
                    if e is Sink {
                        before.lemma_extends_takes(old(output), frames_bytes(frames), 0);
                        before.lemma_extends_takes(
                            old(output),
                            frames_bytes(frames),
                            8 + payload@.len(),
                        );
                        before.lemma_takes_nothing();
                        assert(old(encoder).may_produce(parts[done.len() as int], payload@));
                        if *output != before {
                            let header = header_bytes(take as u32, payload@.len() as u32);
                            output.lemma_extends_position(&before, header);
                        }
                    }
                }
                return Err(e);
            },
        }
        proof {
            let f = Frame { uncompressed_len: take as u32, payload: payload@ };
            lemma_frames_bytes_push(frames, f);
            if owed {
                lemma_takes_others(output, &before, frame_bytes(f), left_over, room);
            }
            output.lemma_extends_twice(&before, old(output), frames_bytes(frames), frame_bytes(f));
            done = done.push(chunk@);
            frames = frames.push(f);
        }
        pos += take;
    }
    Ok(measure(input.len() as u64, output.stream_position(), &start))
}

/// Byte strings with one more byte string, back to back, are both.
pub proof fn lemma_concat_push(parts: Seq<Seq<u8>>, last: Seq<u8>)
    ensures
        concat(parts.push(last)) == concat(parts) + last,
{
    assert(parts.push(last).drop_last() =~= parts);
}

/// What is made of frames that are read as sound is, taken together, exactly
/// as long as the frames declare.
pub proof fn lemma_decoded_len<D: Decoder>(decoder: &D, frames: Seq<Frame>, outs: Seq<Seq<u8>>)
    requires
        decodes_frames(decoder, frames, outs),
    ensures
        concat(outs).len() == declared_len(frames),
    decreases frames.len(),
{
    if frames.len() > 0 {
        lemma_decoded_len(decoder, frames.drop_last(), outs.drop_last());
    }
}

/// Reads `input` frame by frame: decompresses each payload with `decoder`
/// into the room that the frame declares, checks that exactly that many bytes
/// came out, and appends them to `output`. Stops at the first frame that is
/// cut short, that the decoder refuses, or whose payload comes out at another
/// length than declared; what the frames before it held has then been written.
pub fn decompress<D: Decoder, W: Sink>(input: &[u8], output: &mut W, decoder: &mut D) -> (r:
    Result<Measurement, Error>)
    ensures
        match r {
            Ok(m) => {
                &&& is_framed(input@)
                &&& exists|outs: Seq<Seq<u8>>|
                    {
                        &&& #[trigger] decodes_frames(old(decoder), parse_prefix(input@), outs)
                        &&& final(output).extends(old(output), concat(outs))
                    }
                &&& m.input_len == input@.len()
                &&& m.output_len == final(output).offset()
                &&& final(output).offset() == old(output).offset() + declared_len(
                    parse_prefix(input@),
                )
            },
            Err(Error::Truncated) => {
                &&& !is_framed(input@)
                &&& exists|outs: Seq<Seq<u8>>|
                    {
                        &&& #[trigger] decodes_frames(old(decoder), parse_prefix(input@), outs)
                        &&& final(output).extends(old(output), concat(outs))
                    }
            },
            Err(Error::Integrity { expected, actual }) => exists|outs: Seq<Seq<u8>>|
                {
                    &&& outs.len() < parse_prefix(input@).len()
                    &&& #[trigger] decodes_frames(
                        old(decoder),
                        parse_prefix(input@).take(outs.len() as int),
                        outs,
                    )
                    &&& final(output).extends(old(output), concat(outs))
                    &&& parse_prefix(input@)[outs.len() as int].uncompressed_len == expected
                    &&& comes_out_at(
                        old(decoder),
                        parse_prefix(input@)[outs.len() as int],
                        actual as nat,
                    )
                    &&& actual != expected
                },
            Err(Error::Codec) => exists|outs: Seq<Seq<u8>>|
                {
                    &&& outs.len() < parse_prefix(input@).len()
                    &&& #[trigger] decodes_frames(
                        old(decoder),
                        parse_prefix(input@).take(outs.len() as int),
                        outs,
                    )
                    &&& final(output).extends(old(output), concat(outs))
                    &&& !old(decoder).surely_decodes(
                        parse_prefix(input@)[outs.len() as int].payload,
                        parse_prefix(input@)[outs.len() as int].uncompressed_len as nat,
                    )
                },
            Err(Error::Sink) => exists|outs: Seq<Seq<u8>>|
                {
                    &&& outs.len() < parse_prefix(input@).len()
                    &&& #[trigger] decodes_frames(
                        old(decoder),
                        parse_prefix(input@).take(outs.len() as int),
                        outs,
                    )
                    &&& final(output).extends(old(output), concat(outs))
                    &&& comes_out_at(
                        old(decoder),
                        parse_prefix(input@)[outs.len() as int],
                        parse_prefix(input@)[outs.len() as int].uncompressed_len as nat,
                    )
                    &&& !final(output).takes(
                        parse_prefix(input@)[outs.len() as int].uncompressed_len as nat,
                    )
                },
            Err(Error::FrameTooLarge) => false,
        },
        input@.len() == 0 ==> r is Ok,
        decompress_is_owed(old(decoder), old(output), input@) ==> r is Ok,
        same_decoder(final(decoder), old(decoder)),
{
    let start = std::time::Instant::now();
    let ghost mut done: Seq<Frame> = Seq::empty();
    let ghost mut outs: Seq<Seq<u8>> = Seq::empty();
    let ghost all = parse_prefix(input@);
    let ghost owed = decompress_is_owed(old(decoder), old(output), input@);
    proof {
        reveal(decompress_is_owed);
        output.lemma_extends_by_nothing();
        assert(input@.skip(0) =~= input@);
    }
    let mut dest: Vec<u8> = Vec::new();
    let mut pos: usize = 0;
    while pos < input.len()
        invariant
            pos <= input@.len(),
            same_decoder(decoder, old(decoder)),
            all == parse_prefix(input@),
            all == done + parse_prefix(input@.skip(pos as int)),
            is_framed(input@) == is_framed(input@.skip(pos as int)),
            decodes_frames(old(decoder), done, outs),
            output.extends(old(output), concat(outs)),
            owed == decompress_is_owed(old(decoder), old(output), input@),
            owed ==> is_framed(input@),
            owed ==> forall|i: int|
                0 <= i < all.len() ==> old(decoder).surely_decodes(
                    (#[trigger] all[i]).payload,
                    all[i].uncompressed_len as nat,
                ),
            owed ==> forall|i: int, len: nat|
                0 <= i < all.len() && #[trigger] comes_out_at(old(decoder), all[i], len) ==> len
                    == all[i].uncompressed_len,
            owed ==> output.takes(declared_len(parse_prefix(input@.skip(pos as int)))),
        decreases input@.len() - pos,
    {
        let ghost rest = input@.skip(pos as int);
        let (uncompressed_len, compressed_len) = match decode_header(input, pos) {
            Some(header) => header,
            None => {
                return Err(Error::Truncated);
            },
        };
        if compressed_len as usize > input.len() - pos - FRAME_HEADER_LEN {
            return Err(Error::Truncated);
        }
        let from = pos + FRAME_HEADER_LEN;
        let payload = vstd::slice::slice_subrange(input, from, from + compressed_len as usize);
        let ghost f = first_frame(rest);
        let ghost k = done.len() as int;
        proof {
            assert(payload@ =~= f.payload);
            assert(after_first_frame(rest) =~= input@.skip(from + compressed_len));
            assert(all.take(k) =~= done);
            assert(all[k] == f);
            lemma_declared_len_front(f, parse_prefix(after_first_frame(rest)));
        }
        dest.resize(uncompressed_len as usize, 0u8);
        let count = match decoder.decompress(payload, dest.as_mut_slice()) {
            Ok(count) => count,
            Err(_) => {
                assert(!old(decoder).surely_decodes(
                    all[k].payload,
                    all[k].uncompressed_len as nat,
                ));
                return Err(Error::Codec);
            },
        };
        let ghost out = dest@.subrange(0, count as int);
        if count != uncompressed_len as usize {
            assert(comes_out_at(old(decoder), all[k], count as nat));
            return Err(Error::Integrity { expected: uncompressed_len, actual: count });
        }
        assert(dest@ =~= out);
        let ghost before = *output;
        let ghost others = declared_len(parse_prefix(after_first_frame(rest)));
        proof {
            if owed {
                before.lemma_takes_less(out.len(), others);
            }
        }
        if output.write_all(dest.as_slice()).is_err() {
            assert(comes_out_at(old(decoder), all[k], all[k].uncompressed_len as nat));
            return Err(Error::Sink);
        }
        proof {
            if owed {
                output.lemma_extends_takes(&before, out, others);
            }
            lemma_concat_push(outs, out);
            output.lemma_extends_twice(&before, old(output), concat(outs), out);
            done = done.push(f);
            outs = outs.push(out);
        }
        pos = from + compressed_len as usize;
    }
    proof {
        output.lemma_extends_position(old(output), concat(outs));
        lemma_decoded_len(old(decoder), done, outs);
    }
    Ok(measure(input.len() as u64, output.stream_position(), &start))
}

} // verus!
