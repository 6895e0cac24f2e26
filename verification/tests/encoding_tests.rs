use grpc_web_rust::decimal::decimal_string;
use grpc_web_rust::encoding::read_frame_len;
use grpc_web_rust::{decode_grpc_frame, encode_grpc_frame, Error, GrpcWebContentType};

#[test]
fn frame_has_flag_length_and_payload() {
    let frame = encode_grpc_frame(b"hello");
    assert_eq!(frame, vec![0, 0, 0, 0, 5, b'h', b'e', b'l', b'l', b'o']);
}

#[test]
fn empty_message_frame_is_header_only() {
    assert_eq!(encode_grpc_frame(b""), vec![0, 0, 0, 0, 0]);
}

#[test]
fn frame_length_is_big_endian() {
    let msg = vec![7u8; 0x0102];
    let frame = encode_grpc_frame(&msg);
    assert_eq!(&frame[..5], &[0, 0, 0, 1, 2]);
    assert_eq!(frame.len(), 5 + 0x0102);
    assert_eq!(read_frame_len(&frame, 0), 0x0102);
}

#[test]
fn frame_roundtrip_with_rest() {
    let mut data = encode_grpc_frame(b"abc");
    data.extend_from_slice(b"rest");
    let (payload, rest) = decode_grpc_frame(&data).unwrap();
    assert_eq!(payload, b"abc");
    assert_eq!(rest, b"rest");
}

#[test]
fn decode_too_short() {
    let err = decode_grpc_frame(&[0, 0, 0]).unwrap_err();
    match err {
        Error::Decoding(m) => assert_eq!(m, "Frame too short: expected at least 5 bytes, got 3"),
        other => panic!("unexpected {:?}", other),
    }
}

#[test]
fn decode_incomplete() {
    let err = decode_grpc_frame(&[0, 0, 0, 0, 10, 1, 2]).unwrap_err();
    match err {
        Error::Decoding(m) => assert_eq!(m, "Frame incomplete: expected 15 bytes, got 7"),
        other => panic!("unexpected {:?}", other),
    }
}

#[test]
fn decode_ignores_compression_flag() {
    let (payload, rest) = decode_grpc_frame(&[1, 0, 0, 0, 1, 9]).unwrap();
    assert_eq!(payload, &[9]);
    assert!(rest.is_empty());
}

#[test]
fn content_type_strings() {
    assert_eq!(GrpcWebContentType::Binary.as_str(), "application/grpc-web+proto");
    assert_eq!(GrpcWebContentType::Text.as_str(), "application/grpc-web-text+proto");
}

#[test]
fn decimal_strings() {
    assert_eq!(decimal_string(0), "0");
    assert_eq!(decimal_string(7), "7");
    assert_eq!(decimal_string(4294967300), "4294967300");
}
