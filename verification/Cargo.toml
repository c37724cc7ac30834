[package]
name = "sos"
version = "0.1.0"
edition = "2021"
publish = false

[dependencies]
sha2 = "0.10"
hkdf = "0.12"
chacha20poly1305 = "0.10"
serde = { version = "1", features = ["derive"] }
serde_yaml = "0.9"
serde_json = "1"
smoltcp = "0.11"
embedded-io = "0.6"
embedded-tls = "0.17"
rand_core = "0.6"
