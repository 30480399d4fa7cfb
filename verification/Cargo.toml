[package]
name = "submilli-wasm"
version = "0.1.0"
edition = "2021"
publish = false

[dependencies]
anyhow = "=1.0.104"
arbitrary = "=1.5.0"
wasm-smith = "=0.263.0"
wasmparser = "=0.263.0"

[dev-dependencies]
wat = "=1.263.0"
