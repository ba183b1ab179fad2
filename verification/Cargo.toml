[package]
name = "capi_compiler"
version = "0.1.0"
edition = "2021"
publish = false

[dependencies]
petgraph = "*"
blake3 = { version = "*", default-features = false, features = ["pure"] }
serde = { version = "*", features = ["derive"] }
