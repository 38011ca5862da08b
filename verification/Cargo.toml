[package]
name = "availability_recovery"
version = "0.1.0"
edition = "2021"
publish = false

[dependencies]
lru = { version = "0.7", default-features = false }
rand = "0.8"
polkadot-erasure-coding = "16"
polkadot-primitives = "16"
polkadot-node-primitives = "16"
futures = "0.3"
tracing = "0.1"
syn = { version = "2", features = ["full"] }
quote = "1"
proc-macro2 = "1"
