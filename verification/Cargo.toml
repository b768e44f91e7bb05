[package]
name = "chunk_loader"
version = "0.1.0"
edition = "2021"
publish = false

[dependencies]
umash = "=0.6.1"
lru = { version = "=0.18.5", default-features = false }
rand = "=0.10.3"
rayon = "=1.12.0"
rust-s3 = { version = "=0.38.0", default-features = false, features = ["sync-rustls-tls"] }
