[package]
name = "rpak"
version = "0.1.0"
edition = "2021"
publish = false

[dependencies]
anyhow = "1"
bincode = "1.3"
blake3 = "1"
chacha20poly1305 = "0.10"
iced = { version = "0.12", default-features = false }
rfd = { version = "0.14", default-features = false }
serde = { version = "1", features = ["derive"] }
walkdir = "2"
zstd = "0.13"
