[package]
name = "rats-music-converter"
version = "0.1.0"
edition = "2021"
publish = false

[dependencies]
rustfft = "6"
serde = { version = "1", features = ["derive"] }
serde_json = "1"
wasm-bindgen = "0.2"
