[package]
name = "melody_dsp"
version = "0.1.0"
edition = "2021"
publish = false

[dependencies]
rustc_apfloat = "*"
wasm-bindgen = "=0.2.129"
console_error_panic_hook = "=0.1.7"
pitch_shift = "=2.1.0"
