[package]
name = "hotstuff_consensus"
version = "0.1.0"
edition = "2021"
publish = false

[dependencies]
parity-scale-codec = { version = "=3.7.5", features = ["derive"] }
sp-core = "=43.0.0"
fork-tree = "=13.0.1"
rand = "=0.8.8"
futures = "=0.3.34"
ahash = "=0.8.12"
