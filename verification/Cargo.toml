[package]
name = "execution_correctness"
version = "0.1.0"
edition = "2021"
publish = false

[dependencies]
ed25519-dalek = "2.2.0"

[dev-dependencies]
libra-canonical-serialization = "0.1.0"
