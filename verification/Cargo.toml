[package]
name = "wasm-fft"
version = "0.1.0"
edition = "2021"
publish = false

[dependencies]
rustfft = "6"
num-complex = "0.4"
wasm-bindgen = "0.2"
console_error_panic_hook = "0.1"
