use grpc_web_rust::{Error, StatusCode};

#[test]
fn status_numbers_roundtrip() {
    for n in 0u32..=16 {
        assert_eq!(StatusCode::from_u32(n).as_u32(), n);
    }
}

#[test]
fn unknown_numbers_map_to_unknown() {
    assert_eq!(StatusCode::from_u32(17), StatusCode::Unknown);
    assert_eq!(StatusCode::from_u32(u32::MAX), StatusCode::Unknown);
}

#[test]
fn status_specific_values() {
    assert_eq!(StatusCode::from_u32(0), StatusCode::OK);
    assert_eq!(StatusCode::from_u32(5), StatusCode::NotFound);
    assert_eq!(StatusCode::Unauthenticated.as_u32(), 16);
    assert_eq!(StatusCode::DataLoss.as_u32(), 15);
}

#[test]
fn status_names() {
    assert_eq!(StatusCode::OK.to_string(), "OK");
    assert_eq!(StatusCode::InvalidArgument.to_string(), "INVALID_ARGUMENT");
    assert_eq!(StatusCode::Unauthenticated.name(), "UNAUTHENTICATED");
    assert_eq!(StatusCode::DeadlineExceeded.name(), "DEADLINE_EXCEEDED");
}

#[test]
fn error_code_only_for_grpc() {
    assert_eq!(Error::grpc(StatusCode::NotFound, "gone").code(), Some(StatusCode::NotFound));
    assert_eq!(Error::transport("x").code(), None);
    assert_eq!(Error::decoding("x").code(), None);
    assert_eq!(Error::invalid_response("x").code(), None);
}

#[test]
fn error_texts() {
    assert_eq!(Error::transport("down").to_string(), "Transport error: down");
    assert_eq!(
        Error::grpc(StatusCode::NotFound, "no such user").to_string(),
        "gRPC error: NOT_FOUND - no such user"
    );
    assert_eq!(Error::encoding("e").to_string(), "Encoding error: e");
    assert_eq!(Error::decoding("d").to_string(), "Decoding error: d");
    assert_eq!(Error::stream("s").to_string(), "Stream error: s");
    assert_eq!(Error::wasm("w").to_string(), "WASM error: w");
    assert_eq!(Error::invalid_response("r").to_string(), "Invalid response: r");
}

#[test]
fn error_constructors_keep_message() {
    match Error::grpc(StatusCode::Aborted, "m") {
        Error::Grpc { code, message } => {
            assert_eq!(code, StatusCode::Aborted);
            assert_eq!(message, "m");
        }
        other => panic!("unexpected {:?}", other),
    }
    assert!(matches!(Error::stream("q"), Error::Stream(ref m) if m == "q"));
    assert!(matches!(Error::wasm("q"), Error::Wasm(ref m) if m == "q"));
}
