use vstd::prelude::*;

use crate::decimal::{decimal_string, decimal_text};
use crate::error::{concat_str, Error, ErrorView};

verus! {

/// The number that four bytes stand for in big-endian order.
pub open spec fn be32_value(b0: u8, b1: u8, b2: u8, b3: u8) -> nat {
    (b0 as nat) * 16777216 + (b1 as nat) * 65536 + (b2 as nat) * 256 + (b3 as nat)
}

/// The four big-endian bytes of a 32-bit number.
pub open spec fn be32_bytes(n: u32) -> Seq<u8> {
    seq![
        (n / 16777216) as u8,
        ((n / 65536) % 256) as u8,
        ((n / 256) % 256) as u8,
        (n % 256) as u8,
    ]
}

/// The payload length announced by the frame header that starts at `pos`.
pub open spec fn frame_len_at(data: Seq<u8>, pos: int) -> nat {
    be32_value(data[pos + 1], data[pos + 2], data[pos + 3], data[pos + 4])
}

/// The frame that carries `message`: flag 0 (no compression), the length of the
/// message in 32 bits, then the message.
pub open spec fn grpc_frame(message: Seq<u8>) -> Seq<u8> {
    seq![0u8] + be32_bytes(message.len() as u32) + message
}

/// What reading one frame from the front of `data` gives: its payload and the
/// bytes after it, or the error that says why there is no whole frame.
pub open spec fn decode_frame_spec(data: Seq<u8>) -> Result<(Seq<u8>, Seq<u8>), ErrorView> {
    if data.len() < 5 {
        Err(
            ErrorView::Decoding(
                "Frame too short: expected at least 5 bytes, got "@ + decimal_text(data.len()),
            ),
        )
    } else if data.len() < 5 + frame_len_at(data, 0) {
        Err(
            ErrorView::Decoding(
                "Frame incomplete: expected "@ + decimal_text(5 + frame_len_at(data, 0))
                    + " bytes, got "@ + decimal_text(data.len()),
            ),
        )
    } else {
        let end = 5 + frame_len_at(data, 0);
        Ok((data.subrange(5, end as int), data.subrange(end as int, data.len() as int)))
    }
}

/// The payload length in the frame header that starts at `pos`.
pub fn read_frame_len(data: &[u8], pos: usize) -> (r: u32)
    requires
        pos + 5 <= data@.len(),
    ensures
        r == frame_len_at(data@, pos as int),
{
    let n = data.len();
    assert(n == data@.len());
    let b1 = data[pos + 1] as u32;
    let b2 = data[pos + 2] as u32;
    let b3 = data[pos + 3] as u32;
    let b4 = data[pos + 4] as u32;
    b1 * 16777216 + b2 * 65536 + b3 * 256 + b4
}

/// Wraps a message in a gRPC frame with the compression flag cleared.
pub fn encode_grpc_frame(message: &[u8]) -> (frame: Vec<u8>)
    ensures
        frame@ == grpc_frame(message@),
        message@.len() <= u32::MAX ==> frames_message(frame@, message@),
{
    #[verifier::truncate]
    let length = message.len() as u32;
    let mut frame: Vec<u8> = Vec::new();
    frame.push(0u8);
    frame.push((length / 16777216) as u8);
    frame.push(((length / 65536) % 256) as u8);
    frame.push(((length / 256) % 256) as u8);
    frame.push((length % 256) as u8);
    let ghost header = frame@;
    frame.extend_from_slice(message);
    assert(frame@ =~= header + message@);
    assert(header =~= seq![0u8] + be32_bytes(length));
    proof {
        if message@.len() <= u32::MAX {
            lemma_frame_layout(message@);
        }
    }
    frame
}

/// Reads the frame at the front of `data`: its payload and what follows it.
pub fn decode_grpc_frame(data: &[u8]) -> (r: Result<(&[u8], &[u8]), Error>)
    ensures
        match r {
            Ok((payload, rest)) => decode_frame_spec(data@) == Ok::<_, ErrorView>(
                (payload@, rest@),
            ),
            Err(e) => decode_frame_spec(data@) == Err::<(Seq<u8>, Seq<u8>), _>(e@),
        },
{
    if data.len() < 5 {
        let mut msg = String::from_str("Frame too short: expected at least 5 bytes, got ");
        let n = decimal_string(data.len() as u64);
        msg.append(n.as_str());
        return Err(Error::Decoding(msg));
    }
    let length = read_frame_len(data, 0) as usize;
    if data.len() - 5 < length {
        let mut msg = concat_str("Frame incomplete: expected ", decimal_string(length as u64 + 5).as_str());
        msg.append(" bytes, got ");
        msg.append(decimal_string(data.len() as u64).as_str());
        return Err(Error::Decoding(msg));
    }
    Ok((&data[5..5 + length], &data[5 + length..data.len()]))
}

/// Four big-endian bytes give back the number they were made from.
pub proof fn lemma_be32_roundtrip(n: u32)
    ensures
        be32_value(be32_bytes(n)[0], be32_bytes(n)[1], be32_bytes(n)[2], be32_bytes(n)[3]) == n,
{
    let b = be32_bytes(n);
    assert(be32_value(b[0], b[1], b[2], b[3]) == n) by (nonlinear_arith)
        requires
            b[0] == (n / 16777216) as u8,
            b[1] == ((n / 65536) % 256) as u8,
            b[2] == ((n / 256) % 256) as u8,
            b[3] == (n % 256) as u8,
    {
    }
}

/// Reading a frame back from the bytes that framing a message gave, followed by
/// anything, yields that message and exactly what followed it.
pub proof fn lemma_frame_roundtrip(message: Seq<u8>, rest: Seq<u8>)
    requires
        message.len() <= u32::MAX,
    ensures
        decode_frame_spec(grpc_frame(message) + rest) == Ok::<_, ErrorView>((message, rest)),
{
    let data = grpc_frame(message) + rest;
    lemma_be32_roundtrip(message.len() as u32);
    assert(frame_len_at(data, 0) == message.len());
    assert(data.subrange(5, 5 + message.len() as int) =~= message);
    assert(data.subrange(5 + message.len() as int, data.len() as int) =~= rest);
}

/// `f` is `m` in a frame: the flag byte 0, the length of `m` in four bytes with
/// the most significant first (weights 2^24, 2^16, 2^8, 1), then `m` itself.
pub open spec fn frames_message(f: Seq<u8>, m: Seq<u8>) -> bool {
    &&& f.len() == m.len() + 5
    &&& f[0] == 0
    &&& (f[1] as nat) * 16777216 + (f[2] as nat) * 65536 + (f[3] as nat) * 256 + (f[4] as nat) == m.len()
    &&& f.skip(5) == m
}

/// Law: framing a message puts its length in big-endian order in front of it.
pub proof fn lemma_frame_layout(m: Seq<u8>)
    requires
        m.len() <= u32::MAX,
    ensures
        frames_message(grpc_frame(m), m),
{
    let f = grpc_frame(m);
    let b = be32_bytes(m.len() as u32);
    lemma_be32_roundtrip(m.len() as u32);
    assert(f[1] == b[0] && f[2] == b[1] && f[3] == b[2] && f[4] == b[3]);
    assert(f.skip(5) =~= m);
}

/// Law: a frame header announces the number its four length bytes make in
/// big-endian order.
pub proof fn lemma_frame_len_big_endian(data: Seq<u8>, pos: int)
    requires
        0 <= pos,
        pos + 5 <= data.len(),
    ensures
        frame_len_at(data, pos) == (data[pos + 1] as nat) * 16777216 + (data[pos + 2] as nat) * 65536
            + (data[pos + 3] as nat) * 256 + (data[pos + 4] as nat),
{
}

/// Law: reading the frame of `m`, followed by anything, gives `m` and what
/// followed.
pub proof fn lemma_frame_decodes(f: Seq<u8>, m: Seq<u8>, rest: Seq<u8>)
    requires
        frames_message(f, m),
    ensures
        decode_frame_spec(f + rest) == Ok::<_, ErrorView>((m, rest)),
{
    let d = f + rest;
    assert(d[1] == f[1] && d[2] == f[2] && d[3] == f[3] && d[4] == f[4]);
    assert(frame_len_at(d, 0) == m.len());
    assert(d.subrange(5, 5 + m.len() as int) =~= f.skip(5));
    assert(d.subrange(5 + m.len() as int, d.len() as int) =~= rest);
}

/// The two wire formats of gRPC-Web: raw binary frames, or the same frames in base64 text.
#[derive(Debug, Clone, Copy, PartialEq, Eq, Structural)]
pub enum GrpcWebContentType {
    Binary,
    Text,
}

/// The media type sent for each wire format.
pub open spec fn content_type_text(t: GrpcWebContentType) -> Seq<char> {
    match t {
        GrpcWebContentType::Binary => "application/grpc-web+proto"@,
        GrpcWebContentType::Text => "application/grpc-web-text+proto"@,
    }
}

impl GrpcWebContentType {
    /// The media type of this wire format.
    pub fn as_str(&self) -> (r: &'static str)
        ensures
            r@ == content_type_text(*self),
    {
        match self {
            GrpcWebContentType::Binary => "application/grpc-web+proto",
            GrpcWebContentType::Text => "application/grpc-web-text+proto",
        }
    }
}

} // verus!
