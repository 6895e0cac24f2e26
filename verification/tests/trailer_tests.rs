use grpc_web_rust::text::parse_u32_bytes;
use grpc_web_rust::trailers::scan_trailers;
use grpc_web_rust::{encode_grpc_frame, parse_grpc_web_trailers, percent_decode, Error};

fn frame(text: &[u8]) -> Vec<u8> {
    encode_grpc_frame(text)
}

fn decoding_message(e: Error) -> String {
    match e {
        Error::Decoding(m) => m,
        other => panic!("unexpected {:?}", other),
    }
}

#[test]
fn status_and_message() {
    let data = frame(b"grpc-status:0\r\ngrpc-message:OK\r\n");
    assert_eq!(parse_grpc_web_trailers(&data).unwrap(), (0, "OK".to_string()));
}

#[test]
fn values_are_trimmed_and_percent_decoded() {
    let data = frame(b"grpc-status: 5\r\ngrpc-message: not%20found ");
    assert_eq!(parse_grpc_web_trailers(&data).unwrap(), (5, "not found".to_string()));
}

#[test]
fn missing_status() {
    let data = frame(b"grpc-message:hi");
    let m = decoding_message(parse_grpc_web_trailers(&data).unwrap_err());
    assert_eq!(m, "Missing grpc-status trailer");
}

#[test]
fn empty_input_has_no_status() {
    let m = decoding_message(parse_grpc_web_trailers(&[]).unwrap_err());
    assert_eq!(m, "Missing grpc-status trailer");
}

#[test]
fn bad_status_numbers() {
    let m = decoding_message(parse_grpc_web_trailers(&frame(b"grpc-status:abc")).unwrap_err());
    assert_eq!(m, "Failed to parse status code: invalid digit found in string");
    let m = decoding_message(parse_grpc_web_trailers(&frame(b"grpc-status:")).unwrap_err());
    assert_eq!(m, "Failed to parse status code: cannot parse integer from empty string");
    let m = decoding_message(parse_grpc_web_trailers(&frame(b"grpc-status:99999999999")).unwrap_err());
    assert_eq!(m, "Failed to parse status code: number too large to fit in target type");
}

#[test]
fn status_number_texts_match_std() {
    for s in ["abc", "", "99999999999", "+", "-", "-1", "+7", "4294967295", "4294967296", "12a"] {
        let ours = parse_u32_bytes(s.as_bytes()).map_err(|k| k.text().to_string());
        let std = s.parse::<u32>().map_err(|e| e.to_string());
        assert_eq!(ours, std, "input {:?}", s);
    }
}

#[test]
fn plus_sign_is_accepted() {
    assert_eq!(parse_grpc_web_trailers(&frame(b"grpc-status:+7")).unwrap().0, 7);
}

#[test]
fn last_status_wins() {
    let data = frame(b"grpc-status:1\ngrpc-status:2");
    assert_eq!(parse_grpc_web_trailers(&data).unwrap().0, 2);
}

#[test]
fn first_bad_line_stops_reading() {
    let data = frame(b"grpc-status:x\ngrpc-status:2");
    assert!(parse_grpc_web_trailers(&data).is_err());
}

#[test]
fn text_spans_frames() {
    let mut data = frame(b"grpc-status:3\r\n");
    data.extend(frame(b"grpc-message:hi"));
    assert_eq!(parse_grpc_web_trailers(&data).unwrap(), (3, "hi".to_string()));
}

#[test]
fn non_utf8_frame_is_skipped() {
    let mut data = frame(&[0xff, b'\n']);
    data.extend(frame(b"grpc-status:4"));
    assert_eq!(parse_grpc_web_trailers(&data).unwrap().0, 4);
}

#[test]
fn cut_frame_ends_the_text() {
    let mut data = frame(b"grpc-status:2");
    data.extend_from_slice(&[0, 0, 0, 0, 9, 1]);
    assert_eq!(parse_grpc_web_trailers(&data).unwrap().0, 2);
}

#[test]
fn unicode_white_space_is_trimmed() {
    let text = "\u{a0}grpc-status:\u{2003}6\u{3000}\ngrpc-message:\u{85}x\u{1680}";
    assert_eq!(text.lines().count(), 2);
    let data = frame(text.as_bytes());
    assert_eq!(parse_grpc_web_trailers(&data).unwrap(), (6, "x".to_string()));
}

#[test]
fn bad_escape_in_message() {
    let data = frame(b"grpc-message:%zz\ngrpc-status:0");
    let m = decoding_message(parse_grpc_web_trailers(&data).unwrap_err());
    assert_eq!(m, "Failed to decode message: Decoding error: Invalid percent encoding");
}

#[test]
fn non_utf8_message_bytes() {
    let data = frame(b"grpc-status:0\ngrpc-message:%ff");
    let m = decoding_message(parse_grpc_web_trailers(&data).unwrap_err());
    let std_text = String::from_utf8(vec![0xff]).unwrap_err().to_string();
    assert_eq!(m, format!("Failed to decode message: Decoding error: {}", std_text));
}

#[test]
fn escape_of_non_utf8_pair_aborts() {
    let data = frame("grpc-status:0\ngrpc-message:%aé".as_bytes());
    assert!(scan_trailers(&data).is_none());
}

#[test]
fn percent_decoding() {
    assert_eq!(percent_decode(b"a%41b").unwrap(), "aAb");
    assert_eq!(percent_decode(b"%e2%9c%93").unwrap(), "\u{2713}");
    assert_eq!(percent_decode(b"50%").unwrap(), "50%");
    assert_eq!(percent_decode(b"%4").unwrap(), "%4");
    assert_eq!(percent_decode(b"a%+4b").unwrap(), "a\u{4}b");
    assert!(percent_decode(b"%-1").is_err());
    assert_eq!(percent_decode(b"").unwrap(), "");
}
