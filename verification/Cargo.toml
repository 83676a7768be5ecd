[package]
name = "bsa_ba2_tool"
version = "0.1.0"
edition = "2021"
publish = false

[dependencies]
anyhow = "1"
ba2 = "*"
rayon = "1"
tracing = "0.1"
tracing-subscriber = { version = "0.3", features = ["env-filter"] }
walkdir = "2"
