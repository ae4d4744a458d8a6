[package]
name = "aleo_client"
version = "0.1.0"
edition = "2021"
publish = false

[dependencies]
indexmap = "2"
rand = "0.8"
anyhow = "1"
parking_lot = "0.12"
rayon = "1"
ureq = { version = "2", features = ["json"] }
reqwest = { version = "0.12", default-features = false, features = ["json"] }
tracing = "0.1"
tokio = { version = "1", features = ["time"] }
snarkvm = "1"
