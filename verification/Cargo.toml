[package]
name = "codex_copilot"
version = "0.1.0"
edition = "2021"
publish = false

[dependencies]
http = "=1.5.0"
urlencoding = "=2.1.3"
serde_json = "=1.0.154"
reqwest = { version = "=0.12.28", default-features = false, features = ["json"] }
tracing = "=0.1.44"
anyhow = "=1.0.104"
