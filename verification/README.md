# grpc_web_rust

The core of a gRPC-Web client for the browser, verified with Verus.

`src/` is the verified library:

- `encoding`: gRPC message frames (flag byte, 32-bit big-endian length,
  payload) and the two wire formats, binary and base64 text.
- `trailers`: reading the status number and message from trailer frames,
  built on the byte-level steps in `text` (trimming, decimal numbers,
  percent escapes).
- `status`, `error`: status codes and errors with the texts they show.
- `metadata`: request metadata, a map kept in byte order of its keys.
- `transport`: turning a call into a URL, headers and body, and a response
  body into message payloads or an error; `client` holds the user-facing
  settings types.
- `greeter`: the messages and services of the greeter example.
- `outside`: the calls into the standard library's UTF-8 checks and the
  `base64` crate, with their trusted contracts.

`app/` is the unverified rest: fetching with `web-sys`, protobuf decoding with
`prost`, the async call API and the error type with `Display`.
