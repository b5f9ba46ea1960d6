[package]
name = "neb_offload"
version = "0.1.0"
edition = "2021"
publish = false

[dependencies]
zstd = { version = "0.13", features = ["experimental"] }
libc = "0.2"
