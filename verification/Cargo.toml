[package]
name = "mkdlint"
version = "0.1.0"
edition = "2021"
publish = false

[dependencies]
clap = { version = "=4.6.7", features = ["derive"] }
colored = "=2.2.0"
dashmap = "=6.2.1"
regex = "=1.13.1"
serde_json = "=1.0.154"
serde_yaml = "0.9"
tokio = { version = "=1.54.1", features = ["rt", "time"] }
tower-lsp = "=0.20.0"
