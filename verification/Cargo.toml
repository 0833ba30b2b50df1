[package]
name = "cargo_test"
version = "0.1.0"
edition = "2021"
publish = false

[dependencies]
anyhow = "1"
cargo-util = "0.1"
