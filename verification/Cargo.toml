[package]
name = "beam_mm"
version = "0.1.0"
edition = "2021"
publish = false

[dependencies]
serde = { version = "*", features = ["derive"] }
serde_json = "*"
clap = { version = "*", features = ["derive"] }
colored = "*"
dirs = "*"
thiserror = "*"
