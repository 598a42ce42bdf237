[package]
name = "hpcrypt-mldsa"
version = "0.1.0"
edition = "2021"
publish = false

[dependencies]
sha3 = "0.10"
getrandom = "0.2"
zeroize = { version = "1", features = ["derive"] }
serde = { version = "1", features = ["derive"] }
serde_arrays = "0.1"

[dev-dependencies]
serde_json = "1"
