[package]
name = "zaino"
version = "0.1.0"
edition = "2021"
publish = false

[dependencies]
blake2 = "0.10"
clap = { version = "=4.6.7", features = ["derive"] }
indexmap = "=2.14.2"
