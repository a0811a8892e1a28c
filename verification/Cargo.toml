[package]
name = "etherbalance"
version = "0.1.0"
edition = "2021"
publish = false

[dependencies]
url = "*"
anyhow = "*"
serde = { version = "*", features = ["derive"] }
toml = "*"
tokio = { version = "*", default-features = false, features = ["rt", "time", "macros"] }
web3 = { version = "*", default-features = false, features = ["http"] }
clap = { version = "*", features = ["derive"] }
prometheus = "*"
rouille = "*"
