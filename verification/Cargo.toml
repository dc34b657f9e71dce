[package]
name = "cnidarium"
version = "0.1.0"
edition = "2021"
publish = false

[dependencies]
anyhow = "1"
borsh = "1"
hex = "0.4"
jmt = { version = "0.11", features = ["mocks", "migration"] }
rocksdb = { version = "0.21", default-features = false }
sha2 = "0.10"
tendermint = "0.40"
tracing = "0.1"
