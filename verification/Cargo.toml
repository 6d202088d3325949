[package]
name = "route_finder"
version = "0.1.0"
edition = "2021"
publish = false

[dependencies]
once_cell = "1"
serde_json = "1"
serde-wasm-bindgen = "0.6"
wasm-bindgen = "0.2"
