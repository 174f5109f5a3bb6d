[package]
name = "merkle_root"
version = "0.1.0"
edition = "2021"
publish = false

[dependencies]
base16ct = "*"
clap = { version = "*", features = ["derive"] }
rayon = "*"
sha2 = "*"
