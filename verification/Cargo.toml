[package]
name = "bpm_core"
version = "0.1.0"
edition = "2021"
publish = false

[dependencies]
ed25519-dalek = { version = "2", features = ["pkcs8", "pem"] }
sha2 = "0.10"
url = "2"
serde = { version = "1", features = ["derive"] }
serde_json = "1"
tokio = { version = "1", features = ["rt", "sync", "time", "macros"] }

[dev-dependencies]
rlp = "*"
hex = "0.4"
