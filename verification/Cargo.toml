[package]
name = "llama_rs"
version = "0.1.0"
edition = "2021"
publish = false

[dependencies]
ash = "0.38"
libc = "0.2"
rayon = "1"
regex = "1"
thiserror = "2"
