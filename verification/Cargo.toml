[package]
name = "ominiforge"
version = "0.1.0"
edition = "2021"
publish = false

[dependencies]
serde = { version = "1", features = ["derive"] }
serde_json = "1"
toml = "*"
tokio = { version = "1", default-features = false, features = ["sync", "rt", "macros", "time", "process", "io-util"] }
ulid = "1"
chrono = { version = "0.4", default-features = false, features = ["clock", "std"] }
