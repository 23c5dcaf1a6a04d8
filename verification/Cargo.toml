[package]
name = "nofuzz_tuner"
version = "0.1.0"
edition = "2021"
publish = false

[dependencies]
yin = "=0.2.0"
pitch-detection = "=0.3.0"
rustfft = "=6.4.1"
audioviz = { version = "=0.6.0", default-features = false, features = ["std", "spectrum"] }
cpal = "=0.13.5"
crossterm = "=0.29.0"
serde = { version = "=1.0.229", features = ["derive"] }
serde_yaml = "=0.9.34"
wasm-bindgen = "=0.2.129"
js-sys = "=0.3.106"
console_error_panic_hook = "=0.1.7"
lazy_static = "=1.5.1"
