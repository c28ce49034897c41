[package]
name = "vpo_core"
version = "0.1.0"
edition = "2021"
publish = false

[dependencies]
xxhash-rust = { version = "*", features = ["xxh64"] }
walkdir = "*"
rayon = "*"
