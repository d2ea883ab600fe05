[package]
name = "xcstringstool"
version = "0.1.0"
edition = "2021"
publish = false

[dependencies]
serde_json = "*"
anyhow = "*"
clap = { version = "*", features = ["derive"] }
colored = "*"
plist = "*"
