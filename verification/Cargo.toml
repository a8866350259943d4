[package]
name = "pqguard"
version = "0.2.0"
edition = "2021"
publish = false

[dependencies]
ml-kem = { version = "=0.2.3", features = ["deterministic"] }
aes-gcm = "=0.10.3"
hkdf = "=0.12.4"
sha2 = "=0.10.9"
rand = "=0.8.8"
anyhow = "=1.0.104"
clap = { version = "=4.6.7", features = ["derive"] }
colored = "=2.2.0"
