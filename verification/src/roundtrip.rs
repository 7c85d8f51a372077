//! What is written can be read back: the laws that tie the frame writer to the
//! frame reader.
use crate::codec::{Decoder, Encoder};
use crate::frame::{frames_bytes, frames_fit, is_framed, lemma_parse_written, parse_prefix, Frame};
use crate::sink::Sink;
use crate::stream::{
    chunks, comes_out_at, compress_is_owed, concat, declared_len, decodes_frames,
    decompress_is_owed, encodes_chunks, lemma_decoded_len,
};
use vstd::prelude::*;

verus! {

/// `decoder` can make nothing of the payload of any frame but the chunk that
/// the frame stands for, when given room for exactly the chunk's length.
pub open spec fn recovers<D: Decoder>(decoder: &D, parts: Seq<Seq<u8>>, frames: Seq<Frame>) -> bool {
    &&& frames.len() == parts.len()
    &&& forall|i: int|
        0 <= i < frames.len() ==> (#[trigger] frames[i]).uncompressed_len == parts[i].len()
    &&& forall|i: int, back: Seq<u8>|
        0 <= i < frames.len() && #[trigger] decoder.may_decode(
            frames[i].payload,
            parts[i].len(),
            back,
        ) ==> back == parts[i]
}

/// `decoder` undoes `encoder`: whatever `encoder` may produce for an input,
/// `decoder` can make nothing of it but that input when given room for
/// exactly its length.
pub open spec fn inverts<D: Decoder, E: Encoder>(decoder: &D, encoder: &E) -> bool {
    forall|src: Seq<u8>, out: Seq<u8>, back: Seq<u8>|
        #![trigger encoder.may_produce(src, out), decoder.may_decode(out, src.len(), back)]
        encoder.may_produce(src, out) && decoder.may_decode(out, src.len(), back) ==> back == src
}

/// The encoder's bound is sound: whatever it may produce for an input is no
/// longer than the bound that it promises for the input's length.
pub open spec fn bound_is_sound<E: Encoder>(encoder: &E) -> bool {
    forall|src: Seq<u8>, out: Seq<u8>| #[trigger]
        encoder.may_produce(src, out) ==> (encoder.sure_bound(src.len()) matches Some(bound)
            ==> out.len() <= bound)
}

/// The pair is sure of itself on `input`: the encoder promises a bound for
/// the chunk size that fits a header field, and to compress every chunk into
/// that much room; every chunk's length fits a header field; and the decoder
/// promises to decode whatever the encoder may produce, and undoes it.
pub open spec fn pair_is_sure<E: Encoder, D: Decoder>(
    encoder: &E,
    decoder: &D,
    input: Seq<u8>,
    chunk_size: nat,
) -> bool {
    let parts = chunks(input, chunk_size);
    &&& parts.len() == 0 || {
        &&& encoder.sure_bound(chunk_size) matches Some(bound)
        &&& bound <= u32::MAX
        &&& chunk_size <= u32::MAX || input.len() <= u32::MAX
        &&& forall|i: int|
            0 <= i < parts.len() ==> encoder.surely_compresses(#[trigger] parts[i], bound)
    }
    &&& forall|src: Seq<u8>, out: Seq<u8>| #[trigger]
        encoder.may_produce(src, out) ==> decoder.surely_decodes(out, src.len())
    &&& inverts(decoder, encoder)
}

/// A pair that is sure of itself is owed success in writing, whenever the
/// output has room for as many frames of the longest kind as there are
/// chunks.
pub proof fn lemma_sure_pair_writes<E: Encoder, D: Decoder, W: Sink>(
    encoder: &E,
    decoder: &D,
    output: &W,
    input: Seq<u8>,
    chunk_size: nat,
)
    requires
        pair_is_sure(encoder, decoder, input, chunk_size),
        forall|n: nat| output.takes(n),
    ensures
        compress_is_owed(encoder, output, input, chunk_size),
{
    reveal(compress_is_owed);
}

/// A pair that is sure of itself is owed success in reading back what it
/// wrote, whenever the output has room for the input.
pub proof fn lemma_sure_pair_reads<E: Encoder, D: Decoder, W: Sink>(
    encoder: &E,
    decoder: &D,
    output: &W,
    input: Seq<u8>,
    chunk_size: nat,
    frames: Seq<Frame>,
)
    requires
        pair_is_sure(encoder, decoder, input, chunk_size),
        encodes_chunks(encoder, chunks(input, chunk_size), frames),
        output.takes(input.len()),
    ensures
        decompress_is_owed(decoder, output, frames_bytes(frames)),
{
    reveal(decompress_is_owed);
    let parts = chunks(input, chunk_size);
    lemma_parse_written(frames);
    lemma_declared_len(encoder, parts, frames);
    if chunk_size > 0 {
        lemma_chunks_concat(input, chunk_size);
    }
    if concat(parts).len() < input.len() {
        output.lemma_takes_less(concat(parts).len(), (input.len() - concat(parts).len()) as nat);
    }
    assert forall|i: int, len: nat|
        0 <= i < frames.len() && #[trigger] comes_out_at(decoder, frames[i], len) implies len
        == frames[i].uncompressed_len by {
        assert(encoder.may_produce(parts[i], frames[i].payload));
    }
}

/// Byte strings behind a first one are the first, then the others.
pub proof fn lemma_concat_front(first: Seq<u8>, parts: Seq<Seq<u8>>)
    ensures
        concat(seq![first] + parts) == first + concat(parts),
    decreases parts.len(),
{
    let all = seq![first] + parts;
    if parts.len() == 0 {
        assert(concat(all.drop_last()) =~= Seq::<u8>::empty());
    } else {
        lemma_concat_front(first, parts.drop_last());
        assert(all.drop_last() =~= seq![first] + parts.drop_last());
    }
}

/// Chunking loses nothing: with a chunk size above zero the chunks of an
/// input, back to back, are the input; none is empty and none is longer than
/// the chunk size.
pub proof fn lemma_chunks_concat(input: Seq<u8>, chunk_size: nat)
    requires
        chunk_size > 0,
    ensures
        concat(chunks(input, chunk_size)) == input,
        forall|i: int|
            0 <= i < chunks(input, chunk_size).len() ==> 0 < (#[trigger] chunks(
                input,
                chunk_size,
            )[i]).len() <= chunk_size,
    decreases input.len(),
{
    if input.len() == 0 {
        // No chunks, and nothing to put together.
    } else if input.len() <= chunk_size {
        lemma_concat_front(input, Seq::empty());
    } else {
        let first = input.take(chunk_size as int);
        let rest = input.skip(chunk_size as int);
        lemma_chunks_concat(rest, chunk_size);
        lemma_concat_front(first, chunks(rest, chunk_size));
    }
}

/// The frames that the writer makes of chunks declare, taken together, the
/// length of the chunks taken together.
pub proof fn lemma_declared_len<E: Encoder>(encoder: &E, parts: Seq<Seq<u8>>, frames: Seq<Frame>)
    requires
        encodes_chunks(encoder, parts, frames),
    ensures
        declared_len(frames) == concat(parts).len(),
    decreases frames.len(),
{
    if frames.len() > 0 {
        lemma_declared_len(encoder, parts.drop_last(), frames.drop_last());
    }
}

/// Frame integrity, end to end: whatever encoder wrote the frames of an
/// input cut into chunks of a size above zero, and whatever decoder reads
/// them as sound, what comes out is exactly as long as the input.
pub proof fn lemma_lengths_survive<E: Encoder, D: Decoder>(
    encoder: &E,
    decoder: &D,
    input: Seq<u8>,
    chunk_size: nat,
    frames: Seq<Frame>,
    outs: Seq<Seq<u8>>,
)
    requires
        chunk_size > 0,
        encodes_chunks(encoder, chunks(input, chunk_size), frames),
        decodes_frames(decoder, frames, outs),
    ensures
        concat(outs).len() == input.len(),
{
    lemma_declared_len(encoder, chunks(input, chunk_size), frames);
    lemma_decoded_len(decoder, frames, outs);
    lemma_chunks_concat(input, chunk_size);
}

/// Where the decoder can make nothing of the frames but their chunks, what
/// it does make of them is the chunks.
pub proof fn lemma_decoded_recovered<D: Decoder>(
    decoder: &D,
    parts: Seq<Seq<u8>>,
    frames: Seq<Frame>,
    outs: Seq<Seq<u8>>,
)
    requires
        recovers(decoder, parts, frames),
        decodes_frames(decoder, frames, outs),
    ensures
        outs == parts,
{
}

/// Round trip. Take an input cut into chunks of a size above zero, and one
/// frame for each chunk that fits its header, declares the chunk's length and
/// holds a payload of which the decoder can make nothing but the chunk. Then
/// the bytes of these frames are nothing but complete frames and parse to the
/// same frames; whatever the decoder makes of any of them has the length that
/// the frame declares; and what it makes of all of them, back to back, is the
/// input.
pub proof fn lemma_round_trip<D: Decoder>(
    decoder: &D,
    input: Seq<u8>,
    chunk_size: nat,
    frames: Seq<Frame>,
    outs: Seq<Seq<u8>>,
)
    requires
        chunk_size > 0,
        frames_fit(frames),
        recovers(decoder, chunks(input, chunk_size), frames),
        decodes_frames(decoder, frames, outs),
    ensures
        is_framed(frames_bytes(frames)),
        parse_prefix(frames_bytes(frames)) == frames,
        forall|i: int, back: Seq<u8>|
            0 <= i < frames.len() && #[trigger] decoder.may_decode(
                frames[i].payload,
                frames[i].uncompressed_len as nat,
                back,
            ) ==> back.len() == frames[i].uncompressed_len,
        concat(outs) == input,
{
    lemma_parse_written(frames);
    lemma_decoded_recovered(decoder, chunks(input, chunk_size), frames, outs);
    lemma_chunks_concat(input, chunk_size);
}

/// Round trip for a decoder that undoes the encoder: whatever frames the
/// writer made of an input with `encoder`, the reader finds them whole and
/// sound, and makes the input of them with `decoder`.
pub proof fn lemma_round_trip_inverse<E: Encoder, D: Decoder>(
    encoder: &E,
    decoder: &D,
    input: Seq<u8>,
    chunk_size: nat,
    frames: Seq<Frame>,
    outs: Seq<Seq<u8>>,
)
    requires
        chunk_size > 0,
        inverts(decoder, encoder),
        encodes_chunks(encoder, chunks(input, chunk_size), frames),
        decodes_frames(decoder, frames, outs),
    ensures
        is_framed(frames_bytes(frames)),
        parse_prefix(frames_bytes(frames)) == frames,
        forall|i: int, back: Seq<u8>|
            0 <= i < frames.len() && #[trigger] decoder.may_decode(
                frames[i].payload,
                frames[i].uncompressed_len as nat,
                back,
            ) ==> back.len() == frames[i].uncompressed_len,
        concat(outs) == input,
{
    lemma_round_trip(decoder, input, chunk_size, frames, outs);
}

} // verus!
