[package]
name = "rcalc"
version = "0.1.0"
edition = "2021"
publish = false

[dependencies]
wasmtime = "=48.0.5"
anyhow = "=1.0.104"
ariadne = "=0.6.0"

[dev-dependencies]
wasm-encoder = "=0.258.3"
