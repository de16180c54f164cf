[package]
name = "wasm_instrument"
version = "0.1.0"
edition = "2021"
publish = false

[dependencies]
anyhow = "*"
wasmparser = "*"
wasm-encoder = "*"
