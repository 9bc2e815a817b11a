[package]
name = "hoolamike"
version = "0.1.0"
edition = "2021"
publish = false

[dependencies]
anyhow = "*"
base64 = "*"
hex = "*"
serde = { version = "*", features = ["derive"] }
serde_json = "*"
serde_yaml = "*"
sevenz-rust2 = "*"
sha2 = "*"
tempfile = "*"
xxhash-rust = { version = "*", features = ["xxh64"] }
zip = "*"
