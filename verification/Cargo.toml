[package]
name = "obsidian_lib"
version = "0.1.0"
edition = "2021"
publish = false

[dependencies]
flate2 = "1"
js-sys = "0.3"
wasm-bindgen = "0.2"
