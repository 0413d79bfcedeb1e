[package]
name = "audio_utils"
version = "0.1.0"
edition = "2021"
publish = false

[dependencies]
rustfft = "6"
hound = "3"
wasm-bindgen = "0.2"
js-sys = "0.3"
