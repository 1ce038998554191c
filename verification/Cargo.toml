[package]
name = "wasmtools"
version = "0.1.0"
edition = "2021"
publish = false

[dependencies]
queues = "1"
itertools = "0.10"
serde = { version = "1", features = ["derive"] }
wasm-bindgen = { version = "0.2", features = ["serde-serialize"] }
js-sys = "0.3"
web-sys = { version = "0.3", features = ["console"] }
console_error_panic_hook = "0.1"
