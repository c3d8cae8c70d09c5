[package]
name = "network"
version = "0.1.0"
edition = "2021"
publish = false

[dependencies]
itertools = "0.10"
futures = "0.3"
serde = { version = "1", features = ["derive"] }
async-trait = "0.1"
anyhow = "1"
