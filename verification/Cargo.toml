[package]
name = "stb_core"
version = "0.2.0"
edition = "2021"
publish = false

[dependencies]
sha2 = "0.10"
zstd = "0.13"
bincode = "1.3"
serde = { version = "1.0", features = ["derive"] }
