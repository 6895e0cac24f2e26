[package]
name = "grpc_web_rust"
version = "0.1.0"
edition = "2021"
publish = false

[dependencies]
base64 = "0.22"
prost = "0.13"
bytes = "1"
futures = "0.3"
async-stream = "0.3"
thiserror = "1"
wasm-bindgen = "0.2"
wasm-bindgen-futures = "0.4"
js-sys = "0.3"
web-sys = { version = "0.3", features = ["Window", "Request", "RequestInit", "RequestMode", "Headers", "Response"] }
