[package]
name = "cryptor"
version = "0.1.0"
edition = "2021"
publish = false

[dependencies]
nacl = "*"
wasm-bindgen = "*"
wasm-message-passing-3nweb = "*"
