[package]
name = "attestation"
version = "0.1.0"
edition = "2021"
publish = false

[dependencies]
base64ct = { version = "=1.8.3", features = ["alloc", "std"] }
ciborium = "=0.2.2"
coset = "=0.4.2"
der = { version = "=0.7.10", features = ["std"] }
p256 = { version = "=0.13.2", features = ["ecdsa"] }
sd-jwt-payload = "=0.5.1"
serde = { version = "=1.0.229", features = ["derive"] }
serde_bytes = "0.11"
serde_json = "=1.0.154"
sha2 = "=0.10.9"
thiserror = "=2.0.21"
x509-cert = "=0.2.5"
