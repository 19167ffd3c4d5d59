[package]
name = "compose_rs"
version = "0.1.0"
edition = "2021"
publish = false

[dependencies]
serde = { version = "1", features = ["derive"] }
serde_json = "1"
parse-size = "1"
relative-path = "1"
thiserror = "1"

[dev-dependencies]
regex = "1"
