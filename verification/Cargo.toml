[package]
name = "gpx_processor"
version = "0.1.0"
edition = "2021"
publish = false

[dependencies]
gpx = "*"
js-sys = "*"
serde = { version = "*", features = ["derive"] }
serde-wasm-bindgen = "*"
wasm-bindgen = "*"
