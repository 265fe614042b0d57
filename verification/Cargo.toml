[package]
name = "vac-integrity"
version = "0.1.0"
edition = "2021"
publish = false

[dependencies]
aes-gcm = "=0.10.3"
hex = "=0.4.3"
libc = "=0.2.191"
pqcrypto-dilithium = "=0.4.6"
pqcrypto-kyber = "=0.8.1"
pqcrypto-traits = "=0.3.5"
rand = "=0.8.8"
sha2 = "=0.10.9"
