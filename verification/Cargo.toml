[package]
name = "memstead_base"
version = "0.1.0"
edition = "2021"
publish = false

[dependencies]
notify = "*"
pulldown-cmark = "*"
semver = "1"
serde = { version = "1", features = ["derive"] }
serde_json = "1"
thiserror = "*"
tokio = { version = "1", features = ["sync"] }
tracing = "0.1"

[dev-dependencies]
tempfile = "3"
