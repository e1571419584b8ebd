[package]
name = "genvm"
version = "0.1.0"
edition = "2021"
publish = false

[dependencies]
hex = "=0.4.3"
sha3 = "=0.10.9"
base32 = "=0.5.1"
primitive-types = "=0.14.0"
rpds = "=1.2.1"
serde = { version = "=1.0.229", features = ["derive"] }
serde_json = "=1.0.154"
num-bigint = "=0.4.8"
