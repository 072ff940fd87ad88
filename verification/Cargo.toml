[package]
name = "fgit"
version = "0.1.0"
edition = "2021"
publish = false

[dependencies]
anyhow = "*"
clap = "*"
indicatif = "*"
reqwest = { version = "*", default-features = false }
rust-ini = "*"
tokio = { version = "*", features = ["fs", "io-util", "macros", "rt-multi-thread"] }
