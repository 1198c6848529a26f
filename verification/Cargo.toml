[package]
name = "rwkv_web"
version = "0.1.0"
edition = "2021"
publish = false

[dependencies]
itertools = "=0.15.0"
uid = "=0.1.9"
fastrand = "=2.5.0"
anyhow = "=1.0.104"
half = "=2.7.1"
safetensors = "=0.4.5"
wasm-bindgen = "=0.2.130"
wasm-bindgen-futures = "=0.4.80"
js-sys = "=0.3.107"
web-sys = { version = "=0.3.107", features = ["Blob"] }
web-rwkv = "=0.10.0"
web-rwkv-derive = "=0.10.0"
serde = "=1.0.217"
