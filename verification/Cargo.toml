[package]
name = "nixman-core"
version = "0.1.0"
edition = "2021"
publish = false

[dependencies]
rnix = "*"
rowan = "0.15"
sha2 = "0.10"
serde = { version = "1", features = ["derive"] }
serde_json = "1"
chrono = { version = "0.4", features = ["serde"] }
tokio = { version = "1", features = ["process", "io-util", "rt", "rt-multi-thread", "macros", "sync"] }
git2 = { version = "0.19", default-features = false }
tempfile = "3"

[dev-dependencies]
