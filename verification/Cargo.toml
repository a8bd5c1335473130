[package]
name = "q3x_backend"
version = "0.1.0"
edition = "2021"
publish = false

[dependencies]
candid = "=0.10.39"
hex = "=0.4.3"
ic-cdk = "=0.18.7"
ic-ledger-types = "=0.15.0"
ic-vetkeys = "=0.5.0"
k256 = { version = "0.13", features = ["ecdsa", "sha256"] }
serde = { version = "=1.0.229", features = ["derive"] }
sha2 = "=0.10.9"
