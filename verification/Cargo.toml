[package]
name = "paramp"
version = "0.1.0"
edition = "2021"
publish = false

[dependencies]
zip = "*"
rust-crypto = "*"
serde_json = "*"
reqwest = { version = "*", features = ["blocking"] }
yaml-rust = "*"
clap = "*"
rayon = "*"
