[package]
name = "marcel_ssh"
version = "0.1.0"
edition = "2021"
publish = false

[dependencies]
serde = { version = "=1.0.229", features = ["derive"] }
serde_json = "=1.0.154"
chrono = "=0.4.45"
semver = "=1.0.28"
uuid = { version = "=1.29.0", features = ["v4"] }
zip = { version = "=2.6.1", default-features = false, features = ["deflate"] }
reqwest = { version = "=0.12.28", default-features = false, features = ["stream"] }
tokio = { version = "=1.54.1", default-features = false, features = ["rt", "time", "macros", "sync"] }
futures = "=0.3.34"
rustc_version_runtime = "0.3"
