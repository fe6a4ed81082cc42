[package]
name = "provekit_ntt"
version = "0.1.0"
edition = "2021"
publish = false

[dependencies]
anyhow = "=1.0.104"
argh = "=0.1.19"
ark-bn254 = "=0.5.0"
ark-ff = "=0.5.0"
sha2 = { version = "=0.10.9", features = ["oid"] }
tracing = "=0.1.44"
