[package]
name = "journald_sink"
version = "0.1.0"
edition = "2021"
publish = false

[dependencies]
bytes = "1"
chrono = { version = "0.4", default-features = false, features = ["std"] }
tokio = { version = "1", default-features = false, features = ["net", "sync"] }
vrl = { version = "*", default-features = false, features = ["value"] }
