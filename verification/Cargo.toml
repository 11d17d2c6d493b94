[package]
name = "ruso_cli"
version = "0.1.0"
edition = "2021"
publish = false

[dependencies]
semver = "1"
clap = { version = "4", features = ["derive"] }
serde = { version = "1", features = ["derive"] }
serde_json = "1"
csv = "1"
dirs = "*"
thiserror = "*"
tokio = { version = "1", features = ["full"] }
futures = "0.3"
tracing = "0.1"
tracing-subscriber = { version = "0.3", features = ["env-filter"] }
reqwest = { version = "0.12", default-features = false, features = ["json", "multipart", "rustls-tls"] }

[dev-dependencies]
semver = "1"
