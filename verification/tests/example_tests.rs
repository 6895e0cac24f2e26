use grpc_web_rust::client::{Client, StreamingClient};
use grpc_web_rust::greeter::{
    received_line, stream_error_line,
    ArithmeticProgressionStreamingService, CountLog, CountRequest, GreeterServer, GreeterService,
    HelloReply, HelloRequest,
};
use grpc_web_rust::{Error, GrpcWebContentType, Metadata};

#[test]
fn greeting_replies() {
    let s = GreeterService::default();
    let r = s.say_hello(&HelloRequest::new("World"));
    assert_eq!(r.message, "Hello, World!");
    let all = s.say_hello_stream(&HelloRequest::new("Ann"));
    let texts: Vec<&str> = all.iter().map(|r| r.message.as_str()).collect();
    assert_eq!(texts, vec!["Hello, Ann!", "Welcome, Ann!", "Goodbye, Ann!"]);
    assert_eq!(HelloReply::new("x").message, "x");
}

#[test]
fn counting_doubles() {
    let s = ArithmeticProgressionStreamingService::default();
    let v: Vec<i32> = s
        .count_arithmetic_progression(&CountRequest { start: 3 })
        .iter()
        .map(|r| r.value)
        .collect();
    assert_eq!(v, vec![3, 6, 12, 24, 48]);
    let v: Vec<i32> = s
        .count_arithmetic_progression(&CountRequest { start: -1 })
        .iter()
        .map(|r| r.value)
        .collect();
    assert_eq!(v, vec![-1, -2, -4, -8, -16]);
}

#[test]
fn server_wraps_service() {
    let server = GreeterServer::new(GreeterService::default());
    assert_eq!(server.inner().say_hello(&HelloRequest::new("x")).message, "Hello, x!");
}

#[test]
fn client_builders() {
    let mut md = Metadata::new();
    md.insert("authorization", "Bearer token");
    let c = Client::new("http://localhost:8081").with_content_type(GrpcWebContentType::Text).with_metadata(md);
    assert_eq!(c.transport().base_url(), "http://localhost:8081");
    assert_eq!(c.transport().content_type(), GrpcWebContentType::Text);
    assert_eq!(c.transport().default_metadata().get("authorization").unwrap(), "Bearer token");
    let s: StreamingClient<HelloRequest> = StreamingClient::new("http://x").with_metadata(Metadata::new());
    assert_eq!(s.client().transport().content_type(), GrpcWebContentType::Binary);
    let s = s.with_content_type(GrpcWebContentType::Text);
    assert_eq!(s.client().transport().base_url(), "http://x");
    assert_eq!(s.client().transport().content_type(), GrpcWebContentType::Text);
}

#[test]
fn log_lines() {
    assert_eq!(received_line(48), "Received: 48");
    assert_eq!(received_line(-7), "Received: -7");
    assert_eq!(received_line(i32::MIN), format!("Received: {}", i32::MIN));
    assert_eq!(
        stream_error_line(&grpc_web_rust::Error::transport("Fetch failed")),
        "Stream error: Transport error: Fetch failed"
    );
    assert_eq!(grpc_web_rust::decimal::signed_decimal_string(i64::MIN), i64::MIN.to_string());
}

#[test]
fn server_clones() {
    let server = GreeterServer::new(GreeterService::default());
    let copy = server.clone();
    assert_eq!(copy.inner().say_hello(&HelloRequest::new("y")).message, "Hello, y!");
}

#[test]
fn count_log_stops_at_first_error() {
    let mut log = CountLog::start();
    assert_eq!(log.logs, vec!["Starting...".to_string()]);
    log.step(Ok(1));
    log.step(Ok(-2));
    log.step(Err(Error::Transport("down".to_string())));
    log.step(Ok(4));
    assert_eq!(log.logs, vec!["Starting...", "Received: 1", "Received: -2"]);
    assert_eq!(log.error, "Stream error: Transport error: down");
    assert!(log.stopped);
}

#[test]
fn count_log_without_error() {
    let mut log = CountLog::start();
    log.step(Ok(0));
    assert_eq!(log.logs, vec!["Starting...", "Received: 0"]);
    assert_eq!(log.error, "");
    assert!(!log.stopped);
}
