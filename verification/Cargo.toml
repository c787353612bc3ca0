[package]
name = "blog_core"
version = "0.1.0"
edition = "2021"
publish = false

[dependencies]
katex-wasmbind = "*"
pulldown-cmark = "=0.13.4"
web-time = "=1.1.0"
serde = { version = "=1.0.229", features = ["derive"] }
serde-json-wasm = "=1.0.1"
gloo-net = "=0.7.0"
js-sys = "=0.3.106"
wasm-bindgen = "=0.2.129"
wasm-bindgen-futures = "=0.4.79"
