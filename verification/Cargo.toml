[package]
name = "dors"
version = "0.1.0"
edition = "2021"
publish = false

[dependencies]
toml = "*"
rand = "*"
cargo_metadata = "*"
clap = "2"
colored = "*"
