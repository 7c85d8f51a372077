use chunk_codec::discard::Discard;
use chunk_codec::frame::{decode_header, encode_header, FRAME_HEADER_LEN};
use chunk_codec::stream::{write_frame, Error};

#[test]
fn header_is_two_little_endian_lengths() {
    assert_eq!(FRAME_HEADER_LEN, 8);
    assert_eq!(encode_header(1, 2), vec![1, 0, 0, 0, 2, 0, 0, 0]);
    assert_eq!(
        encode_header(0x0403_0201, 0xfffe_fdfc),
        vec![0x01, 0x02, 0x03, 0x04, 0xfc, 0xfd, 0xfe, 0xff]
    );
    assert_eq!(encode_header(16384, 300), vec![0, 0x40, 0, 0, 0x2c, 0x01, 0, 0]);
    assert_eq!(encode_header(0, u32::MAX), vec![0, 0, 0, 0, 255, 255, 255, 255]);
}

#[test]
fn header_reads_back_at_any_position() {
    let mut bytes = vec![9u8, 9, 9];
    bytes.extend_from_slice(&encode_header(1_000_000, 77));
    bytes.push(5);
    assert_eq!(decode_header(&bytes, 3), Some((1_000_000, 77)));
    assert_eq!(decode_header(&[1, 0, 0, 0, 2, 0, 0, 0], 0), Some((1, 2)));
    assert_eq!(
        decode_header(&[0x01, 0x02, 0x03, 0x04, 0xfc, 0xfd, 0xfe, 0xff], 0),
        Some((0x0403_0201, 0xfffe_fdfc))
    );
}

#[test]
fn header_needs_eight_bytes() {
    let bytes = encode_header(5, 6);
    assert_eq!(decode_header(&bytes[..7], 0), None);
    assert_eq!(decode_header(&bytes, 1), None);
    assert_eq!(decode_header(&bytes, 8), None);
    assert_eq!(decode_header(&[], 0), None);
}

#[test]
fn frame_is_header_then_payload() {
    let mut out: Vec<u8> = vec![0xaa];
    assert_eq!(write_frame(&mut out, 7, b"abc"), Ok(()));
    assert_eq!(out, vec![0xaa, 7, 0, 0, 0, 3, 0, 0, 0, b'a', b'b', b'c']);
}

#[test]
fn frame_with_empty_payload_is_just_a_header() {
    let mut out: Vec<u8> = Vec::new();
    assert_eq!(write_frame(&mut out, 0, b""), Ok(()));
    assert_eq!(out, vec![0, 0, 0, 0, 0, 0, 0, 0]);
}

#[test]
fn frame_into_counting_sink_moves_the_position() {
    let mut sink = Discard::new();
    assert_eq!(write_frame(&mut sink, 100, &[1, 2, 3, 4, 5]), Ok(()));
    assert_eq!(sink.position(), 13);
    assert_eq!(sink.len(), 13);
}

#[test]
fn frame_into_full_sink_fails() {
    let mut sink = Discard::new();
    sink.seek(chunk_codec::discard::SeekFrom::Start(u64::MAX - 9)).unwrap();
    assert_eq!(write_frame(&mut sink, 1, &[1, 2]), Err(Error::Sink));
    assert_eq!(sink.position(), u64::MAX - 1);
    let mut sink = Discard::new();
    sink.seek(chunk_codec::discard::SeekFrom::Start(u64::MAX - 3)).unwrap();
    assert_eq!(write_frame(&mut sink, 1, &[1, 2]), Err(Error::Sink));
    assert_eq!(sink.position(), u64::MAX - 3);
}
