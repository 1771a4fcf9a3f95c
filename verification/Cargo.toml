[package]
name = "stremio-core"
version = "0.1.0"
edition = "2021"
publish = false

[dependencies]
boolinator = "2.4"
itertools = "0.10"
semver = { version = "1", features = ["serde"] }
serde = { version = "1", features = ["derive"] }
url = { version = "2", features = ["serde"] }
