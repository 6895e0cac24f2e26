use base64::Engine;
use grpc_web_rust::transport::RequestBody;
use grpc_web_rust::{encode_grpc_frame, Error, GrpcWebContentType, GrpcWebTransport, Metadata, StatusCode};

fn frame(b: &[u8]) -> Vec<u8> {
    encode_grpc_frame(b)
}

fn trailer(text: &str) -> Vec<u8> {
    let mut f = frame(text.as_bytes());
    f[0] = 0x80;
    f
}

#[test]
fn url_joins_parts() {
    let t = GrpcWebTransport::new("http://localhost:8081");
    assert_eq!(t.request_url("hello.Greeter", "SayHello"), "http://localhost:8081/hello.Greeter/SayHello");
}

#[test]
fn builder_settings() {
    let mut md = Metadata::new();
    md.insert("k", "v");
    let t = GrpcWebTransport::new("u").with_content_type(GrpcWebContentType::Text).with_metadata(md);
    assert_eq!(t.base_url(), "u");
    assert_eq!(t.content_type(), GrpcWebContentType::Text);
    assert_eq!(t.default_metadata().to_headers(), vec![("k", "v")]);
    assert_eq!(GrpcWebTransport::new("u").content_type(), GrpcWebContentType::Binary);
}

#[test]
fn headers_skip_content_keys() {
    let t = GrpcWebTransport::new("u");
    let mut md = Metadata::new();
    md.insert("authorization", "t");
    md.insert("content-length", "5");
    md.insert("Content-Type", "x");
    md.insert("CONTENT-TYPE", "y");
    md.insert("Content-Encoding", "z");
    md.insert("x-id", "1");
    let h = t.request_headers(&md);
    let expected: Vec<(String, String)> = vec![
        ("Content-Type", "application/grpc-web+proto"),
        ("X-Grpc-Web", "1"),
        ("Accept", "application/grpc-web+proto"),
        ("Content-Encoding", "z"),
        ("authorization", "t"),
        ("x-id", "1"),
    ]
    .into_iter()
    .map(|(a, b)| (a.to_string(), b.to_string()))
    .collect();
    assert_eq!(h, expected);
}

#[test]
fn request_bodies() {
    let t = GrpcWebTransport::new("u");
    match t.request_body(b"abc") {
        RequestBody::Binary(v) => assert_eq!(v, frame(b"abc")),
        RequestBody::Text(_) => panic!("binary expected"),
    }
    let t = t.with_content_type(GrpcWebContentType::Text);
    for msg in [&b""[..], b"a", b"ab", b"abc", b"hello world"] {
        match t.request_body(msg) {
            RequestBody::Text(s) => {
                assert_eq!(s, base64::engine::general_purpose::STANDARD.encode(frame(msg)))
            }
            RequestBody::Binary(_) => panic!("text expected"),
        }
    }
    match t.request_body(b"abc") {
        RequestBody::Text(s) => assert_eq!(s, "AAAAAANhYmM="),
        RequestBody::Binary(_) => panic!("text expected"),
    }
}

#[test]
fn prepared_request_merges_metadata() {
    let mut defaults = Metadata::new();
    defaults.insert("a", "1");
    defaults.insert("b", "2");
    let t = GrpcWebTransport::new("http://h").with_metadata(defaults);
    let mut extra = Metadata::new();
    extra.insert("b", "3");
    let r = t.prepare_request("S", "M", b"x", &extra);
    assert_eq!(r.url, "http://h/S/M");
    assert_eq!(r.headers[3], ("a".to_string(), "1".to_string()));
    assert_eq!(r.headers[4], ("b".to_string(), "3".to_string()));
    assert_eq!(r.headers.len(), 5);
}

#[test]
fn unary_ok() {
    let t = GrpcWebTransport::new("u");
    let mut body = frame(b"msg");
    body.extend(trailer("grpc-status:0\r\n"));
    assert_eq!(t.parse_unary_response(body).unwrap().unwrap(), b"msg".to_vec());
    assert_eq!(t.parse_unary_response(frame(b"only")).unwrap().unwrap(), b"only".to_vec());
}

#[test]
fn unary_grpc_error() {
    let t = GrpcWebTransport::new("u");
    let mut body = frame(b"");
    body.extend(trailer("grpc-status:5\r\ngrpc-message:no%20user\r\n"));
    match t.parse_unary_response(body).unwrap().unwrap_err() {
        Error::Grpc { code, message } => {
            assert_eq!(code, StatusCode::NotFound);
            assert_eq!(message, "no user");
        }
        other => panic!("unexpected {:?}", other),
    }
}

#[test]
fn unary_unknown_status_number() {
    let t = GrpcWebTransport::new("u");
    let mut body = frame(b"m");
    body.extend(trailer("grpc-status:42"));
    let e = t.parse_unary_response(body).unwrap().unwrap_err();
    assert_eq!(e.code(), Some(StatusCode::Unknown));
}

#[test]
fn unary_malformed() {
    let t = GrpcWebTransport::new("u");
    assert!(matches!(t.parse_unary_response(vec![0, 0]).unwrap(),
        Err(Error::InvalidResponse(ref m)) if m == "Response too short"));
    assert!(matches!(t.parse_unary_response(vec![0, 0, 0, 0, 3, 1]).unwrap(),
        Err(Error::InvalidResponse(ref m)) if m == "First frame incomplete"));
}

#[test]
fn unary_text_mode() {
    let t = GrpcWebTransport::new("u").with_content_type(GrpcWebContentType::Text);
    let mut raw = frame(b"hey");
    raw.extend(trailer("grpc-status:0"));
    let body = base64::engine::general_purpose::STANDARD.encode(&raw).into_bytes();
    assert_eq!(t.parse_unary_response(body).unwrap().unwrap(), b"hey".to_vec());
    let bad = b"!!!!".to_vec();
    let expected = base64::engine::general_purpose::STANDARD.decode(&bad).unwrap_err().to_string();
    match t.parse_unary_response(bad).unwrap().unwrap_err() {
        Error::Decoding(m) => assert_eq!(m, format!("Base64 decode error: {}", expected)),
        other => panic!("unexpected {:?}", other),
    }
}

#[test]
fn stream_messages_in_order() {
    let t = GrpcWebTransport::new("u");
    let mut body = frame(b"one");
    body.extend(frame(b"two"));
    body.extend(frame(b"three"));
    body.extend(trailer("grpc-status:0\r\n"));
    let r = t.parse_streaming_response(body).unwrap();
    assert_eq!(r.messages, vec![b"one".to_vec(), b"two".to_vec(), b"three".to_vec()]);
    assert!(r.end.is_ok());
}

#[test]
fn stream_error_after_messages() {
    let t = GrpcWebTransport::new("u");
    let mut body = frame(b"one");
    body.extend(trailer("grpc-status:14\r\ngrpc-message:later"));
    let r = t.parse_streaming_response(body).unwrap();
    assert_eq!(r.messages, vec![b"one".to_vec()]);
    match r.end {
        Err(Error::Grpc { code, message }) => {
            assert_eq!(code, StatusCode::Unavailable);
            assert_eq!(message, "later");
        }
        other => panic!("unexpected {:?}", other),
    }
}

#[test]
fn stream_without_trailers() {
    let t = GrpcWebTransport::new("u");
    let mut body = frame(b"a");
    body.extend(frame(b"b"));
    let r = t.parse_streaming_response(body).unwrap();
    assert_eq!(r.messages.len(), 2);
    assert!(r.end.is_ok());
}

#[test]
fn stream_leftover_bytes_read_as_trailers() {
    let t = GrpcWebTransport::new("u");
    let mut body = frame(b"a");
    body.extend_from_slice(&[1, 2]);
    let r = t.parse_streaming_response(body).unwrap();
    assert_eq!(r.messages.len(), 1);
    assert!(matches!(r.end, Err(Error::Decoding(ref m)) if m == "Missing grpc-status trailer"));
}

#[test]
fn stream_empty_frame_is_a_message() {
    let t = GrpcWebTransport::new("u");
    let mut body = frame(b"a");
    body.extend(frame(b""));
    body.extend(trailer("grpc-status:0\r\n"));
    let r = t.parse_streaming_response(body).unwrap();
    assert_eq!(r.messages, vec![b"a".to_vec(), Vec::new()]);
    assert!(r.end.is_ok());
}

#[test]
fn stream_status_text_in_plain_frame_holds_trailers() {
    let t = GrpcWebTransport::new("u");
    let mut body = frame(b"a");
    body.extend(frame(b"grpc-status:0\r\n"));
    let r = t.parse_streaming_response(body).unwrap();
    assert_eq!(r.messages, vec![b"a".to_vec()]);
    assert!(r.end.is_ok());
    let mut body = frame(b"a");
    body.extend(frame(b"grpc-status:5"));
    let r = t.parse_streaming_response(body).unwrap();
    assert_eq!(r.messages, vec![b"a".to_vec()]);
    match r.end {
        Err(Error::Grpc { code, message }) => {
            assert_eq!(code, StatusCode::NotFound);
            assert_eq!(message, "");
        }
        other => panic!("unexpected {:?}", other),
    }
}

#[test]
fn stream_trailers_only() {
    let t = GrpcWebTransport::new("u");
    let r = t.parse_streaming_response(trailer("grpc-status:7\r\ngrpc-message:no")).unwrap();
    assert!(r.messages.is_empty());
    match r.end {
        Err(Error::Grpc { code, message }) => {
            assert_eq!(code, StatusCode::PermissionDenied);
            assert_eq!(message, "no");
        }
        other => panic!("unexpected {:?}", other),
    }
}

#[test]
fn stream_text_mode_matches_binary() {
    let bin = GrpcWebTransport::new("u");
    let txt = GrpcWebTransport::new("u").with_content_type(GrpcWebContentType::Text);
    let mut raw = frame(b"x");
    raw.extend(frame(b""));
    raw.extend(trailer("grpc-status:3\r\ngrpc-message:bad"));
    let a = bin.parse_streaming_response(raw.clone()).unwrap();
    let b = txt
        .parse_streaming_response(base64::engine::general_purpose::STANDARD.encode(&raw).into_bytes())
        .unwrap();
    assert_eq!(a.messages, b.messages);
    assert_eq!(format!("{:?}", a.end), format!("{:?}", b.end));
    assert_eq!(b.messages, vec![b"x".to_vec(), Vec::new()]);
}

#[test]
fn unary_trailers_only_error() {
    let t = GrpcWebTransport::new("u");
    let body = trailer("grpc-status:5\r\ngrpc-message:nf\r\n");
    assert_eq!(body[4], 32);
    match t.parse_unary_response(body).unwrap().unwrap_err() {
        Error::Grpc { code, message } => {
            assert_eq!(code, StatusCode::NotFound);
            assert_eq!(message, "nf");
        }
        other => panic!("unexpected {:?}", other),
    }
}

#[test]
fn unary_trailers_only_ok_passes_payload_on() {
    let t = GrpcWebTransport::new("u");
    let r = t.parse_unary_response(trailer("grpc-status:0\r\n")).unwrap();
    assert_eq!(r.unwrap(), b"grpc-status:0\r\n".to_vec());
}

#[test]
fn non_canonical_base64_is_rejected() {
    let t = GrpcWebTransport::new("u").with_content_type(GrpcWebContentType::Text);
    for bad in [&b"YQ"[..], b"YR==", b"YQ==\n", b"Y Q=="] {
        assert!(matches!(t.parse_unary_response(bad.to_vec()).unwrap(), Err(Error::Decoding(_))));
        let r = t.parse_streaming_response(bad.to_vec()).unwrap();
        assert!(r.messages.is_empty());
        assert!(matches!(r.end, Err(Error::Decoding(_))));
    }
}

#[test]
fn unary_text_mode_matches_binary() {
    let bin = GrpcWebTransport::new("u");
    let txt = GrpcWebTransport::new("u").with_content_type(GrpcWebContentType::Text);
    let mut raw = frame(b"");
    raw.extend(trailer("grpc-status:16\r\ngrpc-message:who"));
    let a = bin.parse_unary_response(raw.clone()).unwrap();
    let b = txt
        .parse_unary_response(base64::engine::general_purpose::STANDARD.encode(&raw).into_bytes())
        .unwrap();
    assert_eq!(format!("{:?}", a), format!("{:?}", b));
    assert_eq!(b.unwrap_err().code(), Some(StatusCode::Unauthenticated));
}

#[test]
fn authorization_header_sent_under_its_name() {
    let mut md = Metadata::new();
    md.insert("authorization", "Bearer token");
    let t = GrpcWebTransport::new("http://h");
    let r = t.prepare_request("S", "M", b"", &md);
    assert!(r.headers.contains(&("authorization".to_string(), "Bearer token".to_string())));
}

#[test]
fn stream_bad_base64() {
    let t = GrpcWebTransport::new("u").with_content_type(GrpcWebContentType::Text);
    let r = t.parse_streaming_response(b"*".to_vec()).unwrap();
    assert!(r.messages.is_empty());
    assert!(matches!(r.end, Err(Error::Decoding(_))));
}

#[test]
fn stream_status_trailer_gives_all_messages() {
    let t = GrpcWebTransport::new("u");
    let mut body = frame(b"m1");
    body.extend(frame(b""));
    body.extend(frame(b"m3"));
    body.extend(trailer("grpc-status:0\r\ngrpc-message:fine\r\n"));
    let r = t.parse_streaming_response(body).unwrap();
    assert_eq!(r.messages, vec![b"m1".to_vec(), Vec::new(), b"m3".to_vec()]);
    assert!(r.end.is_ok());
}

#[test]
fn stream_status_trailer_gives_grpc_error() {
    let t = GrpcWebTransport::new("u");
    let mut body = frame(b"m1");
    body.extend(trailer("grpc-status:13\r\ngrpc-message:h\u{e9}llo w\u{f6}rld\r\n"));
    let r = t.parse_streaming_response(body).unwrap();
    assert_eq!(r.messages, vec![b"m1".to_vec()]);
    match r.end {
        Err(Error::Grpc { code, message }) => {
            assert_eq!(code, StatusCode::Internal);
            assert_eq!(message, "h\u{e9}llo w\u{f6}rld");
        }
        other => panic!("unexpected {:?}", other),
    }
}

#[test]
fn unary_status_trailer() {
    let t = GrpcWebTransport::new("u");
    let mut ok = frame(b"payload");
    ok.extend(trailer("grpc-status:0\r\ngrpc-message:\r\n"));
    assert_eq!(t.parse_unary_response(ok).unwrap().unwrap(), b"payload".to_vec());
    let mut bad = frame(b"payload");
    bad.extend(trailer("grpc-status:4294967295\r\ngrpc-message:late\r\n"));
    match t.parse_unary_response(bad).unwrap().unwrap_err() {
        Error::Grpc { code, message } => {
            assert_eq!(code, StatusCode::Unknown);
            assert_eq!(message, "late");
        }
        other => panic!("unexpected {:?}", other),
    }
}
