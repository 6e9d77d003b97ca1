use hyper::decode::{ChunkedState, Decoder};
use hyper::encode::{Async, Buf, EncodeOutcome, Encoder};
use hyper::Error;

#[test]
fn test_write_chunked_sync() {
    let mut dst = Buf::new();
    let mut encoder = Encoder::chunked();

    assert_eq!(encoder.encode(&mut dst, b"foo bar"), EncodeOutcome::Wrote(7));
    assert_eq!(encoder.encode(&mut dst, b"baz quux herp"), EncodeOutcome::Wrote(13));
    assert_eq!(encoder.encode(&mut dst, b""), EncodeOutcome::Wrote(0));
    assert_eq!(
        dst.contents(),
        b"7\r\nfoo bar\r\nD\r\nbaz quux herp\r\n0\r\n\r\n".to_vec()
    );
    assert!(encoder.is_eof());
}

#[test]
fn test_write_sized() {
    let mut dst = Buf::new();
    let mut encoder = Encoder::length(8);
    assert_eq!(encoder.encode(&mut dst, b"foo bar"), EncodeOutcome::Wrote(7));
    assert_eq!(encoder.encode(&mut dst, b"baz"), EncodeOutcome::Wrote(1));

    assert_eq!(dst.contents(), b"foo barb".to_vec());
    assert!(encoder.is_eof());
    // Anything more is refused outright.
    assert_eq!(encoder.encode(&mut dst, b"x"), EncodeOutcome::WriteZero);
    assert_eq!(dst.contents(), b"foo barb".to_vec());
}

#[test]
fn test_write_chunked_async() {
    let mut dst = Async::new(Buf::new(), 7);
    let mut encoder = Encoder::chunked();

    assert_eq!(encoder.encode(&mut dst, b"foo bar"), EncodeOutcome::Wrote(4));
    dst.block_in(6);
    assert_eq!(encoder.encode(&mut dst, b"bar"), EncodeOutcome::Wrote(3));
    assert_eq!(
        encoder.encode(&mut dst, b"baz quux herp"),
        EncodeOutcome::WouldBlock
    );
    // Unblock and finish: the stream completes to the byte.
    dst.block_in(1024);
    assert_eq!(encoder.encode(&mut dst, b"baz quux herp"), EncodeOutcome::Wrote(13));
    assert_eq!(encoder.encode(&mut dst, b""), EncodeOutcome::Wrote(0));
    assert_eq!(
        dst.into_inner().contents(),
        b"7\r\nfoo bar\r\nD\r\nbaz quux herp\r\n0\r\n\r\n".to_vec()
    );
}

#[test]
fn test_write_chunked_partial() {
    // Accept seven bytes, then block: "7\r\nfoo " goes out, four
    // payload bytes of it.
    let mut dst = Async::new(Buf::new(), 7);
    let mut encoder = Encoder::chunked();
    assert_eq!(encoder.encode(&mut dst, b"foo bar"), EncodeOutcome::Wrote(4));

    // The chunk is still open: the caller re-offers the remainder.
    dst.block_in(5);
    assert_eq!(encoder.encode(&mut dst, b"bar"), EncodeOutcome::Wrote(3));

    dst.block_in(0);
    assert_eq!(encoder.encode(&mut dst, b""), EncodeOutcome::WouldBlock);
    dst.block_in(1024);
    assert_eq!(encoder.encode(&mut dst, b""), EncodeOutcome::Wrote(0));
    assert!(encoder.is_eof());

    let inner = dst.into_inner();
    assert_eq!(inner.contents(), b"7\r\nfoo bar\r\n0\r\n\r\n".to_vec());
}

#[test]
fn test_write_empty_encoder() {
    let mut dst = Buf::new();
    let mut encoder = Encoder::empty();
    assert!(encoder.is_eof());
    assert_eq!(encoder.encode(&mut dst, b"ignored"), EncodeOutcome::WriteZero);
    assert_eq!(encoder.encode(&mut dst, b""), EncodeOutcome::Wrote(0));
    assert_eq!(dst.contents(), b"".to_vec());
}

#[test]
fn test_decode_length() {
    let mut dec = Decoder::Length(5);
    let (consumed, out) = dec.decode(b"hello more bytes", false).unwrap();
    assert_eq!(consumed, 5);
    assert_eq!(out, b"hello".to_vec());
    assert!(dec.is_eof());
}

#[test]
fn test_decode_length_in_pieces() {
    let mut dec = Decoder::Length(5);
    let (consumed, out) = dec.decode(b"he", false).unwrap();
    assert_eq!((consumed, out), (2, b"he".to_vec()));
    assert!(!dec.is_eof());
    let (consumed, out) = dec.decode(b"llo", false).unwrap();
    assert_eq!((consumed, out), (3, b"llo".to_vec()));
    assert!(dec.is_eof());
}

#[test]
fn test_decode_chunked() {
    let mut dec = Decoder::Chunked(ChunkedState::SizeFirst, 0);
    let stream = b"1\r\nq\r\n2\r\nwe\r\n2\r\nrt\r\n0\r\n\r\ntrailing";
    let (consumed, out) = dec.decode(stream, false).unwrap();
    assert_eq!(out, b"qwert".to_vec());
    assert!(dec.is_eof());
    assert_eq!(&stream[consumed..], b"trailing");
}

#[test]
fn test_decode_chunked_with_extension() {
    let mut dec = Decoder::Chunked(ChunkedState::SizeFirst, 0);
    let stream = b"1;this is an extension with a digit 1\r\nq\r\n0\r\n\r\n";
    let (_, out) = dec.decode(stream, false).unwrap();
    assert_eq!(out, b"q".to_vec());
    assert!(dec.is_eof());
}

#[test]
fn test_decode_chunked_with_trailers() {
    let mut dec = Decoder::Chunked(ChunkedState::SizeFirst, 0);
    let stream = b"2\r\nok\r\n0\r\nX-Check: sum\r\n\r\n";
    let (consumed, out) = dec.decode(stream, false).unwrap();
    assert_eq!(out, b"ok".to_vec());
    assert!(dec.is_eof());
    assert_eq!(consumed, stream.len());
}

#[test]
fn test_decode_chunked_bad_size() {
    let mut dec = Decoder::Chunked(ChunkedState::SizeFirst, 0);
    assert_eq!(dec.decode(b"X\r\n1\r\n0\r\n\r\n", false).unwrap_err(), Error::Header);
}

#[test]
fn test_decode_chunked_bad_extension() {
    let mut dec = Decoder::Chunked(ChunkedState::SizeFirst, 0);
    assert_eq!(
        dec.decode(b"1 this is an invalid extension\r\n1\r\n0\r\n\r\n", false).unwrap_err(),
        Error::Header
    );
}

#[test]
fn test_decode_eof_mid_body() {
    let mut dec = Decoder::Length(5);
    assert_eq!(dec.decode(b"he", true).unwrap_err(), Error::Eof);
}

#[test]
fn test_decode_close_delimited() {
    let mut dec = Decoder::CloseDelimited(false);
    let (consumed, out) = dec.decode(b"anything goes", false).unwrap();
    assert_eq!(consumed, 13);
    assert_eq!(out, b"anything goes".to_vec());
    assert!(!dec.is_eof());
    let (_, out) = dec.decode(b"", true).unwrap();
    assert_eq!(out, b"".to_vec());
    assert!(dec.is_eof());
}

#[test]
fn test_decode_empty() {
    let mut dec = Decoder::Empty;
    assert!(dec.is_eof());
    let (consumed, out) = dec.decode(b"leftover", false).unwrap();
    assert_eq!(consumed, 0);
    assert_eq!(out, b"".to_vec());
}

#[test]
fn test_decode_nothing_preserves_state() {
    let mut dec = Decoder::Chunked(ChunkedState::SizeFirst, 0);
    let before = dec;
    let (consumed, out) = dec.decode(b"", false).unwrap();
    assert_eq!((consumed, out), (0, Vec::new()));
    assert_eq!(dec, before);

    let mut dec = Decoder::Length(7);
    let (consumed, out) = dec.decode(b"", false).unwrap();
    assert_eq!((consumed, out), (0, Vec::new()));
    assert_eq!(dec, Decoder::Length(7));
}

#[test]
fn test_chunked_round_trip_bytes() {
    // What the encoder produced above is exactly what the decoder
    // hands back.
    let mut dst = Buf::new();
    let mut encoder = Encoder::chunked();
    encoder.encode(&mut dst, b"foo bar");
    encoder.encode(&mut dst, b"baz quux herp");
    encoder.encode(&mut dst, b"");
    let wire = dst.contents();
    let mut dec = Decoder::Chunked(ChunkedState::SizeFirst, 0);
    let (consumed, out) = dec.decode(&wire, false).unwrap();
    assert_eq!(consumed, wire.len());
    assert_eq!(out, b"foo barbaz quux herp".to_vec());
    assert!(dec.is_eof());
}
