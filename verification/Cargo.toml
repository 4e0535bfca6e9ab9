[package]
name = "ciruela"
version = "0.6.0"
edition = "2021"
publish = false

[dependencies]
abstract-ns = "=0.4.3"
atomic = "=0.6.1"
blake2 = "=0.11.0"
hex = "=0.4.3"
regex = "=1.13.1"
typenum = "=1.20.1"
argparse = "=0.2.2"
serde = { version = "=1.0.229", features = ["derive"] }
ssh-keys = "=0.1.4"
serde_cbor = "=0.11.2"
quire = "=0.4.1"
humantime = "=2.4.0"
rand = "=0.5.6"
base64 = "=0.9.3"
