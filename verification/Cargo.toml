[package]
name = "kimchi_prover"
version = "0.1.0"
edition = "2021"
publish = false

[dependencies]
num-bigint = "0.4.8"
hex = "0.4.3"
serde = { version = "1.0.229", features = ["derive"] }
serde_json = "1.0.151"
thiserror = "2.0.21"

[dev-dependencies]
sha2 = "0.10.9"
