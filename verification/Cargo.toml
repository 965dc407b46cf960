[package]
name = "eww"
version = "0.1.0"
edition = "2021"
publish = false

[dependencies]
itertools = "*"
anyhow = "*"
serde = { version = "*", features = ["derive"] }
tokio = { version = "*", features = ["sync"] }
