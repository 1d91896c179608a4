[package]
name = "oraiswap_limit_order"
version = "0.1.0"
edition = "2021"
publish = false

[dependencies]
cosmwasm-std = "1.5"
cosmwasm-storage = "1.5"
cw20 = "1.1"
serde = { version = "1", features = ["derive"] }
