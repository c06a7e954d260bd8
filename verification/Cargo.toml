[package]
name = "sqlite_wasm"
version = "0.1.0"
edition = "2021"
publish = false

[dependencies]
anyhow = "1"
libsqlite3-sys = { version = "0.38.1", features = ["bundled"] }
once_cell = "1"
parking_lot = "0.12"
wasm-encoder = "0.235"
wasmparser = "0.235"
wasmtime = { version = "36", default-features = false, features = ["component-model", "cranelift", "runtime", "std"] }
