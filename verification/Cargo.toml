[package]
name = "cw721-rate-limited-proxy"
version = "0.1.0"
edition = "2021"
publish = false

[dependencies]
anyhow = "1"
cosmwasm-schema = "1"
cosmwasm-std = "1"
cw-multi-test = "0.16"
cw-storage-plus = "1"
cw721 = "0.16"
cw721-base = { version = "0.16", features = ["library"] }
rand = "0.8"
schemars = "0.8"
serde = { version = "1", default-features = false, features = ["derive"] }
thiserror = "1"
