use vstd::prelude::*;

use crate::status::{status_name, StatusCode};

verus! {

/// Everything that can go wrong in a call, with a human-readable message.
#[derive(Debug)]
pub enum Error {
    Transport(String),
    Grpc { code: StatusCode, message: String },
    Encoding(String),
    Decoding(String),
    Stream(String),
    Wasm(String),
    InvalidResponse(String),
}

/// The outcome of a call.
pub type Result<T> = core::result::Result<T, Error>;

/// The mathematical value of an [`Error`]: its variant and the characters of its message.
pub enum ErrorView {
    Transport(Seq<char>),
    Grpc { code: StatusCode, message: Seq<char> },
    Encoding(Seq<char>),
    Decoding(Seq<char>),
    Stream(Seq<char>),
    Wasm(Seq<char>),
    InvalidResponse(Seq<char>),
}

impl View for Error {
    type V = ErrorView;

    open spec fn view(&self) -> ErrorView {
        match self {
            Error::Transport(m) => ErrorView::Transport(m@),
            Error::Grpc { code, message } => ErrorView::Grpc { code: *code, message: message@ },
            Error::Encoding(m) => ErrorView::Encoding(m@),
            Error::Decoding(m) => ErrorView::Decoding(m@),
            Error::Stream(m) => ErrorView::Stream(m@),
            Error::Wasm(m) => ErrorView::Wasm(m@),
            Error::InvalidResponse(m) => ErrorView::InvalidResponse(m@),
        }
    }
}

/// The text under which an error is shown: a prefix naming its kind, then its message.
pub open spec fn error_text(e: ErrorView) -> Seq<char> {
    match e {
        ErrorView::Transport(m) => "Transport error: "@ + m,
        ErrorView::Grpc { code, message } => "gRPC error: "@ + status_name(code) + " - "@ + message,
        ErrorView::Encoding(m) => "Encoding error: "@ + m,
        ErrorView::Decoding(m) => "Decoding error: "@ + m,
        ErrorView::Stream(m) => "Stream error: "@ + m,
        ErrorView::Wasm(m) => "WASM error: "@ + m,
        ErrorView::InvalidResponse(m) => "Invalid response: "@ + m,
    }
}

/// The status code carried by an error, if it is a gRPC error.
pub open spec fn error_code(e: ErrorView) -> Option<StatusCode> {
    match e {
        ErrorView::Grpc { code, .. } => Some(code),
        _ => None,
    }
}

/// A fresh string holding the characters of `a` followed by those of `b`.
pub fn concat_str(a: &str, b: &str) -> (r: String)
    ensures
        r@ == a@ + b@,
{
    let mut r = String::from_str(a);
    r.append(b);
    r
}

impl Error {
    pub fn transport(msg: &str) -> (e: Error)
        ensures
            e@ == ErrorView::Transport(msg@),
    {
        Error::Transport(String::from_str(msg))
    }

    pub fn grpc(code: StatusCode, message: &str) -> (e: Error)
        ensures
            e@ == (ErrorView::Grpc { code, message: message@ }),
    {
        Error::Grpc { code, message: String::from_str(message) }
    }

    pub fn encoding(msg: &str) -> (e: Error)
        ensures
            e@ == ErrorView::Encoding(msg@),
    {
        Error::Encoding(String::from_str(msg))
    }

    pub fn decoding(msg: &str) -> (e: Error)
        ensures
            e@ == ErrorView::Decoding(msg@),
    {
        Error::Decoding(String::from_str(msg))
    }

    pub fn stream(msg: &str) -> (e: Error)
        ensures
            e@ == ErrorView::Stream(msg@),
    {
        Error::Stream(String::from_str(msg))
    }

    pub fn wasm(msg: &str) -> (e: Error)
        ensures
            e@ == ErrorView::Wasm(msg@),
    {
        Error::Wasm(String::from_str(msg))
    }

    pub fn invalid_response(msg: &str) -> (e: Error)
        ensures
            e@ == ErrorView::InvalidResponse(msg@),
    {
        Error::InvalidResponse(String::from_str(msg))
    }

    /// The status code of a gRPC error; `None` for every other kind.
    pub fn code(&self) -> (r: Option<StatusCode>)
        ensures
            r == error_code(self@),
    {
        match self {
            Error::Grpc { code, .. } => Some(*code),
            _ => None,
        }
    }

    /// The text under which this error is shown.
    pub fn to_string(&self) -> (r: String)
        ensures
            r@ == error_text(self@),
    {
        match self {
            Error::Transport(m) => concat_str("Transport error: ", m.as_str()),
            Error::Grpc { code, message } => {
                let mut r = concat_str("gRPC error: ", code.name());
                r.append(" - ");
                r.append(message.as_str());
                r
            },
            Error::Encoding(m) => concat_str("Encoding error: ", m.as_str()),
            Error::Decoding(m) => concat_str("Decoding error: ", m.as_str()),
            Error::Stream(m) => concat_str("Stream error: ", m.as_str()),
            Error::Wasm(m) => concat_str("WASM error: ", m.as_str()),
            Error::InvalidResponse(m) => concat_str("Invalid response: ", m.as_str()),
        }
    }
}

} // verus!
