[package]
name = "wild_host"
version = "0.1.0"
edition = "2021"
publish = false

[dependencies]
libc = "0.2"
memmap2 = "0.9"
nix = { version = "*", features = ["fs", "feature"] }
