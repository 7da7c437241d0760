[package]
name = "bibkeys"
version = "0.1.0"
edition = "2021"
publish = false

[dependencies]
anyhow = "*"
hayagriva = { version = "*", features = ["archive", "biblatex"] }
wasm-minimal-protocol = "*"
