[package]
name = "doh-edge"
version = "0.1.0"
edition = "2021"
publish = false

[dependencies]
base64 = "0.22"
futures-channel = "0.3"
js-sys = "0.3"
serde = { version = "1", features = ["derive"] }
serde_json = "1"
wasm-bindgen = "0.2"
worker = "0.6"

[dev-dependencies]
futures = "0.3"
