//! A gRPC-Web client core: message framing, trailer parsing, status codes,
//! request metadata, and the steps of a call that turn a request into bytes to
//! send and a response body into messages or an error.

pub mod client;
pub mod decimal;
pub mod encoding;
pub mod error;
pub mod greeter;
pub mod metadata;
pub mod order;
pub mod outside;
pub mod prelude;
pub mod status;
pub mod text;
pub mod trailers;
pub mod transport;

pub use client::{Client, StreamingClient};
pub use encoding::{decode_grpc_frame, encode_grpc_frame, GrpcWebContentType};
pub use error::{Error, Result};
pub use metadata::{Metadata, MetadataMap};
pub use status::StatusCode;
pub use text::percent_decode;
pub use trailers::parse_grpc_web_trailers;
pub use transport::GrpcWebTransport;
