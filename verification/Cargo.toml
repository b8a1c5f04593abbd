[package]
name = "seclab-suite-runtime"
version = "0.1.0"
edition = "2021"
publish = false

[dependencies]
semver = "1"
uuid = { version = "1", features = ["v7"] }
serde = { version = "1", features = ["derive"] }
serde_json = "1"
thiserror = "2"
tokio = { version = "1", features = ["fs", "time"] }
reqwest = { version = "*", features = ["json"] }
