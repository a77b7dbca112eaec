[package]
name = "memfs"
version = "0.1.0"
edition = "2021"
publish = false

[dependencies]
rsa = "=0.7.2"
sha2 = { version = "=0.10.9", features = ["oid"] }
signature = "=1.6.4"
k256 = "=0.11.6"
p256 = "=0.11.1"
p384 = "=0.11.2"
rand = "=0.8.8"
uuid = { version = "=1.27.0", features = ["v4"] }
