//! The steps of a gRPC-Web call that compute: what request to send, and what a
//! response body means. Sending the request is left to the caller.
use vstd::prelude::*;

use crate::encoding::{
    frames_message, lemma_frame_layout,
    lemma_be32_roundtrip, lemma_frame_roundtrip, be32_bytes, decode_frame_spec, decode_grpc_frame, encode_grpc_frame, frame_len_at, grpc_frame,
    read_frame_len, content_type_text, GrpcWebContentType,
};
use crate::error::{concat_str, Error, ErrorView};
use crate::metadata::{key_bytes, lists_map_in_order, pairs_view, Metadata};
use crate::outside::{is_base64_text, lemma_base64_bytes_injective, base64_bytes, base64_decode, base64_encode, base64_standard, base64_standard_decode};
use crate::status::{status_from_number, StatusCode};
use crate::text::{has_prefix, starts_with_bytes};
use crate::trailers::{
    is_plain_message, lemma_status_trailer, scan_trailers, status_key, status_key_bytes,
    status_trailer_text, trailer_frame, trailers_spec,
};
use vstd::utf8::decode_utf8;
use vstd::slice::slice_to_vec;

verus! {

/// The bytes of `content-`.
pub open spec fn content_prefix() -> Seq<u8> {
    seq![99u8, 111, 110, 116, 101, 110, 116, 45]
}

/// The bytes of `content-type`.
pub open spec fn content_type_key() -> Seq<u8> {
    seq![99u8, 111, 110, 116, 101, 110, 116, 45, 116, 121, 112, 101]
}

pub open spec fn ascii_lower(c: u8) -> u8 {
    if 65 <= c && c <= 90 {
        (c + 32) as u8
    } else {
        c
    }
}

/// Equality of byte strings when ASCII letters are compared without case.
pub open spec fn eq_ignore_ascii_case(a: Seq<u8>, b: Seq<u8>) -> bool {
    a.len() == b.len() && forall|i: int| 0 <= i < a.len() ==> ascii_lower(#[trigger] a[i]) == ascii_lower(b[i])
}

/// Whether a metadata key is sent as a header: keys that begin with `content-`,
/// and `content-type` in any case, are kept back.
pub open spec fn forwards_key(k: Seq<char>) -> bool {
    !has_prefix(key_bytes(k), content_prefix()) && !eq_ignore_ascii_case(
        key_bytes(k),
        content_type_key(),
    )
}

/// Whether an entry is sent as a header.
pub open spec fn forwards_entry(e: (Seq<char>, Seq<char>)) -> bool {
    forwards_key(e.0)
}

/// The headers that metadata entries become, in their order: the forwarded
/// entries, each a header with the entry's key and value.
pub open spec fn metadata_headers(s: Seq<(Seq<char>, Seq<char>)>) -> Seq<(Seq<char>, Seq<char>)> {
    s.filter(|e: (Seq<char>, Seq<char>)| forwards_entry(e))
}

/// All headers of a request: content type, the gRPC-Web marker, the accepted
/// type, then the metadata headers.
pub open spec fn request_headers_spec(
    t: GrpcWebContentType,
    entries: Seq<(Seq<char>, Seq<char>)>,
) -> Seq<(Seq<char>, Seq<char>)> {
    seq![
        ("Content-Type"@, content_type_text(t)),
        ("X-Grpc-Web"@, "1"@),
        ("Accept"@, content_type_text(t)),
    ] + metadata_headers(entries)
}

/// The body of a request.
pub enum RequestBody {
    /// The frame itself.
    Binary(Vec<u8>),
    /// The frame in standard base64.
    Text(String),
}

pub open spec fn request_body_matches(t: GrpcWebContentType, message: Seq<u8>, b: RequestBody) -> bool {
    match b {
        RequestBody::Binary(v) => t == GrpcWebContentType::Binary && v@ == grpc_frame(message),
        RequestBody::Text(s) => t == GrpcWebContentType::Text && s@ == base64_standard(
            grpc_frame(message),
        ),
    }
}

/// The bytes of a response body in the given wire format: a binary body as it
/// is, a text body decoded from base64.
pub open spec fn response_bytes_spec(t: GrpcWebContentType, body: Seq<u8>) -> Result<Seq<u8>, ErrorView> {
    match t {
        GrpcWebContentType::Binary => Ok(body),
        GrpcWebContentType::Text => match base64_standard_decode(body) {
            Ok(v) => Ok(v),
            Err(m) => Err(ErrorView::Decoding("Base64 decode error: "@ + m)),
        },
    }
}

/// The first frame of a response (header included) and what follows it, or
/// why there is no whole first frame.
pub open spec fn split_spec(data: Seq<u8>) -> Result<(Seq<u8>, Seq<u8>), ErrorView> {
    if data.len() < 5 {
        Err(ErrorView::InvalidResponse("Response too short"@))
    } else if data.len() < 5 + frame_len_at(data, 0) {
        Err(ErrorView::InvalidResponse("First frame incomplete"@))
    } else {
        let end = 5 + frame_len_at(data, 0);
        Ok((data.take(end as int), data.skip(end as int)))
    }
}

/// What trailers end a call with: nothing more when their status is OK, the
/// gRPC error they report otherwise, or the error that reading them gives;
/// `None` where reading them aborts.
#[verifier::opaque]
pub open spec fn trailer_end(t: Seq<u8>) -> Option<Result<(), ErrorView>> {
    match trailers_spec(t) {
        None => None,
        Some(Err(e)) => Some(Err(e)),
        Some(Ok((c, m))) => if status_from_number(c) != StatusCode::OK {
            Some(Err(ErrorView::Grpc { code: status_from_number(c), message: m }))
        } else {
            Some(Ok(()))
        },
    }
}

/// The payload of a unary response (its bytes after base64 decoding), or the
/// error the response reports; `None` where reading its trailers aborts. When
/// the first frame itself holds trailers, they are read from there and an
/// error they report ends the call; otherwise the bytes after the first frame,
/// if any, are the trailers. When the trailers report OK, the first frame's
/// payload is the message.
pub open spec fn unary_spec(data: Seq<u8>) -> Option<Result<Seq<u8>, ErrorView>> {
    match split_spec(data) {
        Err(e) => Some(Err(e)),
        Ok((first, rest)) => {
            let end = if is_trailer_frame(data, 0) {
                trailer_end(data)
            } else if rest.len() == 0 {
                Some(Ok(()))
            } else {
                trailer_end(rest)
            };
            match end {
                None => None,
                Some(Err(e)) => Some(Err(e)),
                Some(Ok(())) => match decode_frame_spec(first) {
                    Ok((payload, _)) => Some(Ok(payload)),
                    Err(e) => Some(Err(e)),
                },
            }
        },
    }
}

/// The payload of the complete frame whose header starts at `pos`.
pub open spec fn frame_payload(body: Seq<u8>, pos: int) -> Seq<u8> {
    body.subrange(pos + 5, pos + 5 + frame_len_at(body, pos))
}

/// Whether the complete frame whose header starts at `pos` holds trailers:
/// its payload begins with `grpc-status:`.
pub open spec fn is_trailer_frame(body: Seq<u8>, pos: int) -> bool {
    has_prefix(frame_payload(body, pos), status_key())
}

/// What a streaming response holds from `pos` on: the message payloads in
/// order, and how the stream ends. A frame whose payload begins with
/// `grpc-status:` holds the trailers; every other complete frame is a message,
/// empty ones included; bytes that do not form a whole frame are read as
/// trailers too.
/// `None` where reading trailers aborts.
pub open spec fn stream_spec(body: Seq<u8>, pos: int) -> Option<(Seq<Seq<u8>>, Result<(), ErrorView>)>
    decreases body.len() - pos,
{
    if pos < 0 || pos + 5 > body.len() || pos + 5 + frame_len_at(body, pos) > body.len() {
        if 0 <= pos < body.len() {
            match trailer_end(body.skip(pos)) {
                None => None,
                Some(r) => Some((Seq::empty(), r)),
            }
        } else {
            Some((Seq::empty(), Ok(())))
        }
    } else {
        let start = pos + 5;
        let end = start + frame_len_at(body, pos);
        let frame = body.subrange(start, end);
        if is_trailer_frame(body, pos) {
            match trailer_end(body.skip(pos)) {
                None => None,
                Some(r) => Some((Seq::empty(), r)),
            }
        } else {
            match stream_spec(body, end) {
                None => None,
                Some((ms, r)) => Some((seq![frame] + ms, r)),
            }
        }
    }
}

/// The message payloads of a streaming response and how the stream ended.
pub struct StreamingResponse {
    pub messages: Vec<Vec<u8>>,
    pub end: Result<(), Error>,
}

pub open spec fn end_view(r: Result<(), Error>) -> Result<(), ErrorView> {
    match r {
        Ok(()) => Ok(()),
        Err(e) => Err(e@),
    }
}

pub open spec fn messages_view(v: Seq<Vec<u8>>) -> Seq<Seq<u8>> {
    v.map_values(|m: Vec<u8>| m@)
}

/// Decodes a text-format response body from standard base64.
pub fn decode_grpc_web_body(body: &[u8]) -> (r: Result<Vec<u8>, Error>)
    ensures
        !is_base64_text(body@) ==> (r matches Err(Error::Decoding(_))),
        forall|b: Seq<u8>| #[trigger] base64_bytes(b) == body@ ==> (r matches Ok(v) && v@ == b),
        match r {
            Ok(v) => response_bytes_spec(GrpcWebContentType::Text, body@) == Ok::<_, ErrorView>(v@),
            Err(e) => response_bytes_spec(GrpcWebContentType::Text, body@) == Err::<Seq<u8>, _>(e@),
        },
{
    let r = base64_decode(body);
    proof {
        assert forall|b: Seq<u8>| #[trigger] base64_bytes(b) == body@ implies (r matches Ok(v) && v@
            == b) by {
            assert(is_base64_text(body@));
            lemma_base64_bytes_injective(r->Ok_0@, b);
        }
    }
    match r {
        Ok(v) => Ok(v),
        Err(m) => Err(Error::Decoding(concat_str("Base64 decode error: ", m.as_str()))),
    }
}

/// Splits a response into its first frame (header included) and the bytes after it.
pub fn split_message_and_trailers(data: &[u8]) -> (r: Result<(&[u8], &[u8]), Error>)
    ensures
        match r {
            Ok((first, rest)) => split_spec(data@) == Ok::<_, ErrorView>((first@, rest@)),
            Err(e) => split_spec(data@) == Err::<(Seq<u8>, Seq<u8>), _>(e@),
        },
{
    if data.len() < 5 {
        return Err(Error::invalid_response("Response too short"));
    }
    let length = read_frame_len(data, 0) as usize;
    if data.len() - 5 < length {
        return Err(Error::invalid_response("First frame incomplete"));
    }
    let end = 5 + length;
    Ok((&data[0..end], &data[end..data.len()]))
}

/// How trailers end a call: `Ok` when their status is OK, the gRPC error they
/// report, or the error reading them gives; `None` where reading them aborts.
pub fn trailer_outcome(t: &[u8]) -> (r: Option<Result<(), Error>>)
    ensures
        match r {
            None => trailer_end(t@) is None,
            Some(x) => trailer_end(t@) == Some(end_view(x)),
        },
{
    proof {
        reveal(trailer_end);
    }
    match scan_trailers(t) {
        None => None,
        Some(Err(e)) => Some(Err(e)),
        Some(Ok((c, m))) => {
            let code = StatusCode::from_u32(c);
            if code != StatusCode::OK {
                Some(Err(Error::Grpc { code, message: m }))
            } else {
                Some(Ok(()))
            }
        },
    }
}

/// The message payload of a unary response body (after base64 decoding), or
/// the error it reports; `None` where reading its trailers aborts.
pub fn unary_payload(data: &[u8]) -> (r: Option<Result<Vec<u8>, Error>>)
    ensures
        match r {
            None => unary_spec(data@) is None,
            Some(Ok(v)) => unary_spec(data@) == Some(Ok::<_, ErrorView>(v@)),
            Some(Err(e)) => unary_spec(data@) == Some(Err::<Seq<u8>, _>(e@)),
        },
{
    match split_message_and_trailers(data) {
        Err(e) => Some(Err(e)),
        Ok((first, rest)) => {
            let skey = status_key_bytes();
            let payload = &first[5..first.len()];
            assert(payload@ =~= frame_payload(data@, 0));
            if starts_with_bytes(payload, skey.as_slice()) {
                match trailer_outcome(data) {
                    None => {
                        return None;
                    },
                    Some(Err(e)) => {
                        return Some(Err(e));
                    },
                    Some(Ok(())) => {},
                }
            } else if rest.len() > 0 {
                match trailer_outcome(rest) {
                    None => {
                        return None;
                    },
                    Some(Err(e)) => {
                        return Some(Err(e));
                    },
                    Some(Ok(())) => {},
                }
            }
            match decode_grpc_frame(first) {
                Ok((payload, _)) => Some(Ok(slice_to_vec(payload))),
                Err(e) => Some(Err(e)),
            }
        },
    }
}

pub open spec fn prepend_messages(
    ms: Seq<Seq<u8>>,
    o: Option<(Seq<Seq<u8>>, Result<(), ErrorView>)>,
) -> Option<(Seq<Seq<u8>>, Result<(), ErrorView>)> {
    match o {
        None => None,
        Some((m2, r)) => Some((ms + m2, r)),
    }
}

/// The message payloads of a streaming response body (after base64 decoding)
/// and how the stream ends; `None` where reading its trailers aborts.
pub fn stream_payloads(body: &[u8]) -> (r: Option<StreamingResponse>)
    ensures
        match r {
            None => stream_spec(body@, 0) is None,
            Some(s) => stream_spec(body@, 0) == Some((messages_view(s.messages@), end_view(s.end))),
        },
{
    let n = body.len();
    let mut pos: usize = 0;
    let mut msgs: Vec<Vec<u8>> = Vec::new();
    let skey = status_key_bytes();
    assert(messages_view(msgs@) =~= Seq::<Seq<u8>>::empty());
    loop
        invariant
            pos <= n,
            n == body@.len(),
            skey@ == status_key(),
            stream_spec(body@, 0) == prepend_messages(messages_view(msgs@), stream_spec(body@, pos as int)),
        decreases n - pos,
    {
        if n - pos < 5 || read_frame_len(body, pos) as usize > n - pos - 5 {
            if pos < n {
                let rest = &body[pos..n];
                assert(rest@ =~= body@.skip(pos as int));
                match trailer_outcome(rest) {
                    None => {
                        return None;
                    },
                    Some(end) => {
                        assert(messages_view(msgs@) + Seq::<Seq<u8>>::empty() =~= messages_view(msgs@));
                        return Some(StreamingResponse { messages: msgs, end });
                    },
                }
            } else {
                assert(messages_view(msgs@) + Seq::<Seq<u8>>::empty() =~= messages_view(msgs@));
                return Some(StreamingResponse { messages: msgs, end: Ok(()) });
            }
        }
        let length = read_frame_len(body, pos) as usize;
        let start = pos + 5;
        let frame = &body[start..start + length];
        assert(frame@ =~= frame_payload(body@, pos as int));
        if starts_with_bytes(frame, skey.as_slice()) {
            let rest = &body[pos..n];
            assert(rest@ =~= body@.skip(pos as int));
            match trailer_outcome(rest) {
                None => {
                    return None;
                },
                Some(end) => {
                    assert(messages_view(msgs@) + Seq::<Seq<u8>>::empty() =~= messages_view(msgs@));
                    return Some(StreamingResponse { messages: msgs, end });
                },
            }
        }
        let ghost before = messages_view(msgs@);
        msgs.push(slice_to_vec(frame));
        proof {
            assert(messages_view(msgs@) =~= before.push(frame@));
            let later = stream_spec(body@, (start + length) as int);
            if let Some((m2, r)) = later {
                assert(before + (seq![frame@] + m2) =~= before.push(frame@) + m2);
            }
        }
        pos = start + length;
    }
}

fn content_prefix_bytes() -> (r: Vec<u8>)
    ensures
        r@ == content_prefix(),
{
    let r: Vec<u8> = vec![99u8, 111, 110, 116, 101, 110, 116, 45];
    assert(r@ =~= content_prefix());
    r
}

fn content_type_key_bytes() -> (r: Vec<u8>)
    ensures
        r@ == content_type_key(),
{
    let r: Vec<u8> = vec![99u8, 111, 110, 116, 101, 110, 116, 45, 116, 121, 112, 101];
    assert(r@ =~= content_type_key());
    r
}

fn ascii_lower_exec(c: u8) -> (r: u8)
    ensures
        r == ascii_lower(c),
{
    if 65 <= c && c <= 90 {
        c + 32
    } else {
        c
    }
}

/// Whether two byte strings are equal when ASCII letters are compared without case.
pub fn eq_ignore_ascii_case_bytes(a: &[u8], b: &[u8]) -> (r: bool)
    ensures
        r == eq_ignore_ascii_case(a@, b@),
{
    if a.len() != b.len() {
        return false;
    }
    let mut i: usize = 0;
    while i < a.len()
        invariant
            i <= a@.len(),
            a@.len() == b@.len(),
            forall|j: int| 0 <= j < i ==> ascii_lower(#[trigger] a@[j]) == ascii_lower(b@[j]),
        decreases a@.len() - i,
    {
        if ascii_lower_exec(a[i]) != ascii_lower_exec(b[i]) {
            return false;
        }
        i = i + 1;
    }
    true
}

/// Whether a metadata key is sent as a header.
pub fn forwards_key_exec(key: &str) -> (r: bool)
    ensures
        r == forwards_key(key@),
{
    let kb = key.as_bytes();
    let prefix = content_prefix_bytes();
    let ct = content_type_key_bytes();
    !starts_with_bytes(kb, prefix.as_slice()) && !eq_ignore_ascii_case_bytes(kb, ct.as_slice())
}

/// Connection settings for gRPC-Web calls: where to send them, in which wire
/// format, and the metadata that every call carries.
pub struct GrpcWebTransport {
    base_url: String,
    content_type: GrpcWebContentType,
    default_metadata: Metadata,
}

/// A request ready to be sent by POST.
pub struct PreparedRequest {
    pub url: String,
    pub headers: Vec<(String, String)>,
    pub body: RequestBody,
}

impl GrpcWebTransport {
    pub closed spec fn base_url_view(&self) -> Seq<char> {
        self.base_url@
    }

    pub closed spec fn content_type_spec(&self) -> GrpcWebContentType {
        self.content_type
    }

    pub closed spec fn default_metadata_view(&self) -> Map<Seq<char>, Seq<char>> {
        self.default_metadata@
    }

    /// Settings for calls to `base_url`, in binary format, with no metadata.
    pub fn new(base_url: &str) -> (r: GrpcWebTransport)
        ensures
            r.base_url_view() == base_url@,
            r.content_type_spec() == GrpcWebContentType::Binary,
            r.default_metadata_view() == Map::<Seq<char>, Seq<char>>::empty(),
    {
        GrpcWebTransport {
            base_url: String::from_str(base_url),
            content_type: GrpcWebContentType::Binary,
            default_metadata: Metadata::new(),
        }
    }

    /// The same settings with another wire format.
    pub fn with_content_type(self, content_type: GrpcWebContentType) -> (r: GrpcWebTransport)
        ensures
            r.base_url_view() == self.base_url_view(),
            r.content_type_spec() == content_type,
            r.default_metadata_view() == self.default_metadata_view(),
    {
        GrpcWebTransport { content_type, ..self }
    }

    /// The same settings with other metadata for every call.
    pub fn with_metadata(self, metadata: Metadata) -> (r: GrpcWebTransport)
        ensures
            r.base_url_view() == self.base_url_view(),
            r.content_type_spec() == self.content_type_spec(),
            r.default_metadata_view() == metadata@,
    {
        GrpcWebTransport { default_metadata: metadata, ..self }
    }

    pub fn base_url(&self) -> (r: &str)
        ensures
            r@ == self.base_url_view(),
    {
        self.base_url.as_str()
    }

    pub fn content_type(&self) -> (r: GrpcWebContentType)
        ensures
            r == self.content_type_spec(),
    {
        self.content_type
    }

    pub fn default_metadata(&self) -> (r: &Metadata)
        ensures
            r@ == self.default_metadata_view(),
    {
        &self.default_metadata
    }

    /// The address of a method: base URL, service and method joined by `/`.
    pub fn request_url(&self, service: &str, method: &str) -> (r: String)
        ensures
            r@ == self.base_url_view() + "/"@ + service@ + "/"@ + method@,
    {
        let mut r = concat_str(self.base_url.as_str(), "/");
        r.append(service);
        r.append("/");
        r.append(method);
        r
    }

    /// The metadata of a call: the default metadata with the call's own laid over it.
    pub fn merged_metadata(&self, metadata: &Metadata) -> (r: Metadata)
        ensures
            r@ == self.default_metadata_view().union_prefer_right(metadata@),
    {
        self.default_metadata.merged_with(metadata)
    }

    /// The headers of a request that carries `metadata`.
    pub fn request_headers(&self, metadata: &Metadata) -> (r: Vec<(String, String)>)
        ensures
            pairs_view(r@) == request_headers_spec(self.content_type_spec(), metadata.entries()),
            lists_map_in_order(metadata.entries(), metadata@),
    {
        let ct = self.content_type.as_str();
        let mut r: Vec<(String, String)> = Vec::new();
        r.push((String::from_str("Content-Type"), String::from_str(ct)));
        r.push((String::from_str("X-Grpc-Web"), String::from_str("1")));
        r.push((String::from_str("Accept"), String::from_str(ct)));
        let ghost fixed = pairs_view(r@);
        let entries = metadata.iter();
        let ghost s = metadata.entries();
        let n = entries.len();
        let mut i: usize = 0;
        assert(s.take(0) =~= Seq::<(Seq<char>, Seq<char>)>::empty());
        assert(fixed + metadata_headers(s.take(0)) =~= fixed);
        while i < n
            invariant
                i <= n,
                n == entries@.len(),
                n == s.len(),
                forall|j: int| 0 <= j < n ==> ((#[trigger] entries@[j]).0@, entries@[j].1@) == s[j],
                fixed == seq![
                    ("Content-Type"@, content_type_text(self.content_type_spec())),
                    ("X-Grpc-Web"@, "1"@),
                    ("Accept"@, content_type_text(self.content_type_spec())),
                ],
                pairs_view(r@) == fixed + metadata_headers(s.take(i as int)),
            decreases n - i,
        {
            let (k, v) = entries[i];
            assert(s.take(i + 1).drop_last() =~= s.take(i as int));
            assert(s.take(i + 1).last() == s[i as int]);
            proof {
                reveal_with_fuel(Seq::filter, 1);
            }
            if forwards_key_exec(k) {
                let ghost before = r@;
                r.push((String::from_str(k), String::from_str(v)));
                assert(pairs_view(r@) =~= pairs_view(before).push((k@, v@)));
            }
            i = i + 1;
        }
        assert(s.take(n as int) =~= s);
        r
    }

    /// The body of a request that carries `message`: its frame, in base64 for
    /// the text format.
    pub fn request_body(&self, message: &[u8]) -> (r: RequestBody)
        requires
            message@.len() + 5 <= isize::MAX,
            self.content_type_spec() == GrpcWebContentType::Text ==> message@.len() + 5 <= isize::MAX
                / 4 * 3,
        ensures
            request_body_matches(self.content_type_spec(), message@, r),
    {
        let frame = encode_grpc_frame(message);
        match self.content_type {
            GrpcWebContentType::Binary => RequestBody::Binary(frame),
            GrpcWebContentType::Text => RequestBody::Text(base64_encode(frame.as_slice())),
        }
    }

    /// Everything needed to send a call of `service`/`method` with an encoded
    /// message and the call's own metadata.
    pub fn prepare_request(
        &self,
        service: &str,
        method: &str,
        message: &[u8],
        metadata: &Metadata,
    ) -> (r: PreparedRequest)
        requires
            message@.len() + 5 <= isize::MAX,
            self.content_type_spec() == GrpcWebContentType::Text ==> message@.len() + 5 <= isize::MAX
                / 4 * 3,
        ensures
            r.url@ == self.base_url_view() + "/"@ + service@ + "/"@ + method@,
            exists|e: Seq<(Seq<char>, Seq<char>)>|
                lists_map_in_order(e, self.default_metadata_view().union_prefer_right(metadata@))
                    && pairs_view(r.headers@) == request_headers_spec(self.content_type_spec(), e),
            request_body_matches(self.content_type_spec(), message@, r.body),
    {
        let merged = self.merged_metadata(metadata);
        let url = self.request_url(service, method);
        let headers = self.request_headers(&merged);

        let body = self.request_body(message);
        PreparedRequest { url, headers, body }
    }

    /// The bytes of a response body in this wire format.
    pub fn response_bytes(&self, body: Vec<u8>) -> (r: Result<Vec<u8>, Error>)
        ensures
            self.content_type_spec() == GrpcWebContentType::Text && !is_base64_text(body@) ==> (r matches Err(
                Error::Decoding(_),
            )),
            self.content_type_spec() == GrpcWebContentType::Text ==> forall|b: Seq<u8>|
                #[trigger] base64_bytes(b) == body@ ==> (r matches Ok(v) && v@ == b),
            match r {
                Ok(v) => response_bytes_spec(self.content_type_spec(), body@) == Ok::<_, ErrorView>(v@),
                Err(e) => response_bytes_spec(self.content_type_spec(), body@) == Err::<Seq<u8>, _>(e@),
            },
    {
        match self.content_type {
            GrpcWebContentType::Binary => Ok(body),
            GrpcWebContentType::Text => decode_grpc_web_body(body.as_slice()),
        }
    }

    /// The message payload of a unary response, or the error it reports;
    /// `None` where reading its trailers aborts.
    pub fn parse_unary_response(&self, body: Vec<u8>) -> (r: Option<Result<Vec<u8>, Error>>)
        ensures
            self.content_type_spec() == GrpcWebContentType::Text && !is_base64_text(body@) ==> (r matches Some(
                Err(Error::Decoding(_)),
            )),
            self.content_type_spec() == GrpcWebContentType::Text ==> forall|b: Seq<u8>|
                #[trigger] base64_bytes(b) == body@ ==> match r {
                    None => unary_spec(b) is None,
                    Some(Ok(v)) => unary_spec(b) == Some(Ok::<_, ErrorView>(v@)),
                    Some(Err(x)) => unary_spec(b) == Some(Err::<Seq<u8>, _>(x@)),
                },
            match response_bytes_spec(self.content_type_spec(), body@) {
                Err(e) => (r matches Some(Err(x)) && x@ == e),
                Ok(d) => match r {
                    None => unary_spec(d) is None,
                    Some(Ok(v)) => unary_spec(d) == Some(Ok::<_, ErrorView>(v@)),
                    Some(Err(x)) => unary_spec(d) == Some(Err::<Seq<u8>, _>(x@)),
                },
            },
    {
        match self.response_bytes(body) {
            Err(e) => Some(Err(e)),
            Ok(d) => unary_payload(d.as_slice()),
        }
    }

    /// The message payloads of a streaming response and how the stream ends;
    /// `None` where reading its trailers aborts.
    pub fn parse_streaming_response(&self, body: Vec<u8>) -> (r: Option<StreamingResponse>)
        ensures
            self.content_type_spec() == GrpcWebContentType::Text && !is_base64_text(body@) ==> (r matches Some(
                s,
            ) && s.messages@.len() == 0 && s.end matches Err(Error::Decoding(_))),
            self.content_type_spec() == GrpcWebContentType::Text ==> forall|b: Seq<u8>|
                #[trigger] base64_bytes(b) == body@ ==> match r {
                    None => stream_spec(b, 0) is None,
                    Some(s) => stream_spec(b, 0) == Some((messages_view(s.messages@), end_view(s.end))),
                },
            match response_bytes_spec(self.content_type_spec(), body@) {
                Err(e) => (r matches Some(s) && s.messages@.len() == 0 && end_view(s.end) == Err::<(), ErrorView>(e)),
                Ok(d) => match r {
                    None => stream_spec(d, 0) is None,
                    Some(s) => stream_spec(d, 0) == Some((messages_view(s.messages@), end_view(s.end))),
                },
            },
    {
        match self.response_bytes(body) {
            Err(e) => Some(StreamingResponse { messages: Vec::new(), end: Err(e) }),
            Ok(d) => stream_payloads(d.as_slice()),
        }
    }
}

/// The frames of the messages, one after the other.
pub open spec fn concat_frames(ms: Seq<Seq<u8>>) -> Seq<u8>
    decreases ms.len(),
{
    if ms.len() == 0 {
        Seq::empty()
    } else {
        grpc_frame(ms[0]) + concat_frames(ms.skip(1))
    }
}

/// A message that a stream carries as a message: its length fits in 32 bits,
/// and it does not begin with `grpc-status:`, which marks trailers.
pub open spec fn is_stream_message(m: Seq<u8>) -> bool {
    m.len() <= u32::MAX && !has_prefix(m, status_key())
}

/// Reading a stream from `pos` does not depend on the bytes before `pos`.
pub proof fn lemma_stream_shift(p: Seq<u8>, t: Seq<u8>, pos: int)
    requires
        0 <= pos,
    ensures
        stream_spec(p + t, p.len() + pos) == stream_spec(t, pos),
    decreases t.len() - pos,
{
    let b = p + t;
    let q = p.len() + pos;
    if pos + 5 <= t.len() {
        assert(frame_len_at(b, q) == frame_len_at(t, pos)) by {
            assert(b[q + 1] == t[pos + 1]);
            assert(b[q + 2] == t[pos + 2]);
            assert(b[q + 3] == t[pos + 3]);
            assert(b[q + 4] == t[pos + 4]);
        }
    }
    if pos < t.len() {
        assert(b.skip(q) =~= t.skip(pos));
    }
    if pos + 5 <= t.len() && pos + 5 + frame_len_at(t, pos) <= t.len() {
        let len = frame_len_at(t, pos);
        assert(b.subrange(q + 5, q + 5 + len) =~= t.subrange(pos + 5, pos + 5 + len));
        lemma_stream_shift(p, t, pos + 5 + len);
    }
}

/// One message frame at `pos`, read as a message.
proof fn lemma_stream_step(b: Seq<u8>, pos: int)
    requires
        0 <= pos,
        pos + 5 <= b.len(),
        pos + 5 + frame_len_at(b, pos) <= b.len(),
        !is_trailer_frame(b, pos),
    ensures
        stream_spec(b, pos) == prepend_messages(
            seq![b.subrange(pos + 5, pos + 5 + frame_len_at(b, pos))],
            stream_spec(b, pos + 5 + frame_len_at(b, pos)),
        ),
{
    let frame = b.subrange(pos + 5, pos + 5 + frame_len_at(b, pos));
    if let Some((ms, r)) = stream_spec(b, pos + 5 + frame_len_at(b, pos)) {
        assert(seq![frame] + ms == seq![frame] + ms);
    }
}

/// Law: the messages framed one after the other come out of a streaming
/// response first, in their order, whatever follows them.
pub proof fn lemma_stream_messages_in_order(ms: Seq<Seq<u8>>, t: Seq<u8>)
    requires
        forall|i: int| 0 <= i < ms.len() ==> is_stream_message(#[trigger] ms[i]),
    ensures
        stream_spec(concat_frames(ms) + t, 0) == prepend_messages(ms, stream_spec(t, 0)),
    decreases ms.len(),
{
    if ms.len() == 0 {
        assert(concat_frames(ms) + t =~= t);
        if let Some((m2, r)) = stream_spec(t, 0) {
            assert(ms + m2 =~= m2);
        }
    } else {
        let m = ms[0];
        assert(is_stream_message(m));
        let rest = ms.skip(1);
        assert forall|i: int| 0 <= i < rest.len() implies is_stream_message(#[trigger] rest[i]) by {
            assert(rest[i] == ms[i + 1]);
        }
        lemma_stream_messages_in_order(rest, t);
        let f = grpc_frame(m);
        let tail = concat_frames(rest) + t;
        let b = concat_frames(ms) + t;
        assert(b =~= f + tail);
        assert(frame_len_at(b, 0) == m.len()) by {
            lemma_be32_roundtrip(m.len() as u32);
            assert(b[1] == be32_bytes(m.len() as u32)[0]);
            assert(b[2] == be32_bytes(m.len() as u32)[1]);
            assert(b[3] == be32_bytes(m.len() as u32)[2]);
            assert(b[4] == be32_bytes(m.len() as u32)[3]);
        }
        assert(b.subrange(5, 5 + m.len() as int) =~= m);
        assert(frame_payload(b, 0) == m);
        lemma_stream_step(b, 0);
        lemma_stream_shift(f, tail, 0);
        assert(f.len() + 0 == 5 + m.len());
        if let Some((m2, r)) = stream_spec(t, 0) {
            assert(seq![m] + (rest + m2) =~= ms + m2);
        }
    }
}

/// Law: a unary response made of one message frame gives that message when
/// nothing follows it, and otherwise whatever its trailers end the call with.
pub proof fn lemma_unary_frame(m: Seq<u8>, t: Seq<u8>)
    requires
        m.len() <= u32::MAX,
        !has_prefix(m, status_key()),
    ensures
        unary_spec(grpc_frame(m) + t) == (if t.len() == 0 {
            Some(Ok::<Seq<u8>, ErrorView>(m))
        } else {
            match trailer_end(t) {
                None => None,
                Some(Err(e)) => Some(Err(e)),
                Some(Ok(())) => Some(Ok(m)),
            }
        }),
{
    let f = grpc_frame(m);
    let b = f + t;
    lemma_frame_roundtrip(m, t);
    lemma_frame_roundtrip(m, Seq::empty());
    assert(frame_len_at(b, 0) == m.len());
    assert(frame_payload(b, 0) =~= m);
    assert(b.take(5 + m.len() as int) =~= f);
    assert(b.skip(5 + m.len() as int) =~= t);
    assert(f + Seq::<u8>::empty() =~= f);
}

/// Law: the metadata headers are exactly the forwarded entries, each under its
/// own key with its value; no key beginning with `content-`, and no
/// `content-type` in any case, is sent.
#[verifier::spinoff_prover]
pub proof fn lemma_metadata_headers_forwarded(s: Seq<(Seq<char>, Seq<char>)>)
    ensures
        forall|j: int|
            0 <= j < metadata_headers(s).len() ==> s.contains(#[trigger] metadata_headers(s)[j])
                && forwards_key(metadata_headers(s)[j].0),
        forall|i: int|
            0 <= i < s.len() && forwards_key(#[trigger] s[i].0) ==> metadata_headers(s).contains(s[i]),
{
    let pred = |e: (Seq<char>, Seq<char>)| forwards_entry(e);
    let h = s.filter(pred);
    assert forall|j: int| 0 <= j < h.len() implies s.contains(#[trigger] h[j]) && forwards_key(h[j].0) by {
        s.lemma_filter_pred(pred, j);
        assert(h.contains(h[j]));
        s.lemma_filter_contains_rev(pred, h[j]);
    }
    assert forall|i: int| 0 <= i < s.len() && forwards_key(#[trigger] s[i].0) implies metadata_headers(
        s,
    ).contains(s[i]) by {
        s.lemma_filter_contains(pred, i);
    }
}

/// How a call ends on trailers that report status number `s` with message
/// `m`: with nothing more when `s` is 0, with the gRPC error for `s` and `m`
/// otherwise.
pub open spec fn status_end(s: u32, m: Seq<char>) -> Result<(), ErrorView> {
    if s == 0 {
        Ok(())
    } else {
        Err(ErrorView::Grpc { code: status_from_number(s), message: m })
    }
}

proof fn lemma_status_trailer_end(s: u32, g: Seq<u8>)
    requires
        is_plain_message(g),
        status_trailer_text(s, g).len() <= u32::MAX,
    ensures
        trailer_end(trailer_frame(status_trailer_text(s, g))) == Some(status_end(s, decode_utf8(g))),
{
    lemma_status_trailer(s, g);
    reveal(trailer_end);
    assert(status_from_number(s) == StatusCode::OK <==> s == 0);
}

/// Law: message frames followed by a trailer frame that reports status
/// number `s` with a plain message `g` give every message, in order, and end
/// with nothing more when `s` is 0 and with the gRPC error for `s` and `g`
/// otherwise.
pub proof fn lemma_stream_with_status(ms: Seq<Seq<u8>>, s: u32, g: Seq<u8>)
    requires
        forall|i: int| 0 <= i < ms.len() ==> is_stream_message(#[trigger] ms[i]),
        is_plain_message(g),
        status_trailer_text(s, g).len() <= u32::MAX,
    ensures
        stream_spec(concat_frames(ms) + trailer_frame(status_trailer_text(s, g)), 0) == Some(
            (ms, status_end(s, decode_utf8(g))),
        ),
{
    let t = status_trailer_text(s, g);
    let tf = trailer_frame(t);
    lemma_stream_messages_in_order(ms, tf);
    lemma_status_trailer_end(s, g);
    lemma_be32_roundtrip(t.len() as u32);
    assert(frame_len_at(tf, 0) == t.len());
    assert(tf.skip(0) =~= tf);
    assert(frame_payload(tf, 0) =~= t);
    assert(t.take(12) =~= status_key());
    assert(is_trailer_frame(tf, 0));
    assert(stream_spec(tf, 0) == Some((Seq::<Seq<u8>>::empty(), status_end(s, decode_utf8(g)))));
    assert(ms + Seq::<Seq<u8>>::empty() =~= ms);
}

/// Law: a unary response made of a message frame and a trailer frame that
/// reports status number `s` with a plain message `g` gives the message when
/// `s` is 0, and the gRPC error for `s` and `g` otherwise.
pub proof fn lemma_unary_with_status(m: Seq<u8>, s: u32, g: Seq<u8>)
    requires
        m.len() <= u32::MAX,
        !has_prefix(m, status_key()),
        is_plain_message(g),
        status_trailer_text(s, g).len() <= u32::MAX,
    ensures
        unary_spec(grpc_frame(m) + trailer_frame(status_trailer_text(s, g))) == Some(
            if s == 0 {
                Ok::<Seq<u8>, ErrorView>(m)
            } else {
                Err(ErrorView::Grpc { code: status_from_number(s), message: decode_utf8(g) })
            },
        ),
{
    lemma_unary_frame(m, trailer_frame(status_trailer_text(s, g)));
    lemma_status_trailer_end(s, g);
}

/// Law: a request announces its own wire format: its first header is
/// `Content-Type` and its third `Accept`, both
/// `application/grpc-web-text+proto` in text format and
/// `application/grpc-web+proto` in binary format, between them
/// `X-Grpc-Web: 1`, and then the metadata headers. A text body goes with the
/// text media type, a binary body with the binary one.
pub proof fn lemma_request_headers_announce_format(
    t: GrpcWebContentType,
    entries: Seq<(Seq<char>, Seq<char>)>,
    message: Seq<u8>,
    body: RequestBody,
)
    ensures
        request_headers_spec(t, entries).len() == 3 + metadata_headers(entries).len(),
        request_headers_spec(t, entries)[0] == ("Content-Type"@, if t == GrpcWebContentType::Text {
            "application/grpc-web-text+proto"@
        } else {
            "application/grpc-web+proto"@
        }),
        request_headers_spec(t, entries)[1] == ("X-Grpc-Web"@, "1"@),
        request_headers_spec(t, entries)[2] == ("Accept"@, request_headers_spec(t, entries)[0].1),
        request_headers_spec(t, entries).skip(3) == metadata_headers(entries),
        request_body_matches(t, message, body) ==> ((body is Text) <==> request_headers_spec(t, entries)[0].1
            == "application/grpc-web-text+proto"@),
{
    reveal_strlit("application/grpc-web-text+proto");
    reveal_strlit("application/grpc-web+proto");
    let h = request_headers_spec(t, entries);
    assert(h.skip(3) =~= metadata_headers(entries));
    assert("application/grpc-web-text+proto"@.len() != "application/grpc-web+proto"@.len());
}

/// Law: a request body holds the message framed: in binary format the frame
/// itself (flag 0, the length in big-endian order, the message), empty
/// messages included; in text format the standard base64 text of that frame.
pub proof fn lemma_request_body_frames_message(t: GrpcWebContentType, message: Seq<u8>, body: RequestBody)
    requires
        message.len() <= u32::MAX,
        request_body_matches(t, message, body),
    ensures
        (body is Binary) <==> t == GrpcWebContentType::Binary,
        body matches RequestBody::Binary(v) ==> frames_message(v@, message),
        body matches RequestBody::Text(s) ==> exists|f: Seq<u8>|
            frames_message(f, message) && #[trigger] base64_standard(f) == s@,
{
    lemma_frame_layout(message);
    if let RequestBody::Text(s) = body {
        assert(base64_standard(grpc_frame(message)) == s@);
    }
}

} // verus!
