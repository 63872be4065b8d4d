[package]
name = "puyo"
version = "0.1.0"
edition = "2021"
publish = false

[dependencies]
serde = { version = "1", features = ["derive"] }
serde_json = "1"
bincode = "1"
wasm-bindgen = "0.2"
js-sys = "0.3"
