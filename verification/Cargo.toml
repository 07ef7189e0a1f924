[package]
name = "stone_prover"
version = "0.1.0"
edition = "2021"
publish = false

[dependencies]
tempfile = "3"
tokio = { version = "1", features = ["process", "rt", "io-util"] }
serde = { version = "1", features = ["derive"] }
serde_json = "1"
