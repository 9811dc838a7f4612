[package]
name = "trustgraph"
version = "0.1.0"
edition = "2021"
publish = false

[dependencies]
rocksdb = { version = "0.21", default-features = false }
secp256k1 = { version = "0.28", features = ["rand-std", "recovery"] }
sha3 = "0.10"
dotenv = "0.15"
tracing = "0.1"
