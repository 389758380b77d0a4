[package]
name = "input_fold"
version = "0.1.0"
edition = "2021"
publish = false

[dependencies]
anyhow = "=1.0.104"
async-trait = "=0.1.92"
eth-state-fold-types = { version = "=0.8.0", default-features = false }
hex = "=0.4.3"
im = { version = "=15.1.0", features = ["serde"] }
reqwest = { version = "=0.11.27", default-features = false, features = ["blocking"] }
serde = { version = "=1.0.229", features = ["derive", "rc"] }
serde_json = "=1.0.154"
