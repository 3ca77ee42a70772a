[package]
name = "finality_pbft"
version = "0.1.0"
edition = "2021"
publish = false

[dependencies]
parity-scale-codec = { version = "=3.7.5", features = ["derive"] }
serde = { version = "=1.0.229", features = ["derive"] }
log = "=0.4.34"
finality-grandpa = { version = "=0.16.3", features = ["derive-codec"] }
sp-core = { version = "=43.0.0", features = ["serde"] }
sp-keystore = "=0.49.0"
sp-runtime = "=49.0.0"
