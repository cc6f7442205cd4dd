[package]
name = "icns_resolver"
version = "0.1.0"
edition = "2021"
publish = false

[dependencies]
bech32 = "*"
cosmwasm-std = "*"
serde = { version = "*", features = ["derive"] }
