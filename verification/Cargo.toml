[package]
name = "codec_comparison"
version = "0.1.0"
edition = "2021"
publish = false

[dependencies]
bincode = "2"
capnp = "*"
rkyv = "0.8"
serde = { version = "1", features = ["derive"] }
