[package]
name = "txhashset"
version = "0.1.0"
edition = "2021"
publish = false

[dependencies]
croaring = "*"
blake2-rfc = "0.2"
