[package]
name = "line_highlight"
version = "0.1.0"
edition = "2021"
publish = false

[dependencies]
syntect = { version = "*", features = ["metadata"] }
xi-rope = "*"
xi-core-lib = "*"
serde = { version = "*", features = ["derive"] }
serde_json = "*"
