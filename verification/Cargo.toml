[package]
name = "grpc_web_client"
version = "0.1.0"
edition = "2021"
publish = false

[dependencies]
base64 = "0.22"
http = "1"
http-body = "1"
http-body-util = "0.1"
bytes = "1"
futures-util = "0.3"
tower-service = "0.3"
js-sys = "0.3"
wasm-bindgen = "0.2"
wasm-bindgen-futures = "0.4"
wasm-streams = "0.4"

[dependencies.web-sys]
version = "0.3"
features = [
    "AbortController",
    "AbortSignal",
    "Headers",
    "ReadableStream",
    "Request",
    "RequestCache",
    "RequestCredentials",
    "RequestInit",
    "RequestMode",
    "RequestRedirect",
    "ReferrerPolicy",
    "Response",
    "ServiceWorkerGlobalScope",
    "Window",
    "WorkerGlobalScope",
]
