[package]
name = "holi-p2p"
version = "0.1.0"
edition = "2021"
publish = false

[dependencies]
chacha20poly1305 = "0.10"
rand = "0.8"
wasm-bindgen = "0.2"
js-sys = "0.3"
