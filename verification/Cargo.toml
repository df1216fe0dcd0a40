[package]
name = "podcomp"
version = "0.1.0"
edition = "2021"
publish = false

[dependencies]
anyhow = "*"
clap = { version = "*", features = ["derive"] }
futures = "*"
indexmap = { version = "*", features = ["serde"] }
semver = { version = "*", features = ["serde"] }
serde = { version = "*", features = ["derive"] }
serde_ignored = "*"
serde_json = "*"
serde_yaml = "*"
sha2 = "*"
tokio = { version = "*", features = ["rt-multi-thread", "macros", "sync"] }
