[package]
name = "gejang"
version = "0.1.0"
edition = "2021"
publish = false

[dependencies]
anyhow = "1"
clap = { version = "4", features = ["derive"] }
colored = "2"
itertools = "0.13"
thiserror = "1"
