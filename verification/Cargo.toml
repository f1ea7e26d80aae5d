[package]
name = "sigma_vault"
version = "0.1.0"
edition = "2021"
publish = false

[dependencies]
blake3 = "*"
chacha20poly1305 = "*"
rand = "*"
