[package]
name = "kdbx_core"
version = "0.1.0"
edition = "2021"
publish = false

[dependencies]
aes = "0.7"
block-modes = "0.8"
cipher = "0.3"
salsa20 = "0.8"
chacha20 = "0.8"
twofish = "0.6"
sha2 = "0.9"
rust-argon2 = "0.8"
secstr = "0.5"
xmltree = "0.10"

[dev-dependencies]
chrono = "0.4"
base64 = "0.13"
