[package]
name = "featomatic"
version = "0.1.0"
edition = "2021"
publish = false

[dependencies]
itertools = "=0.15.0"
cargo = "0.16"
rustc-serialize = "=0.3.25"
