[package]
name = "balance_processor"
version = "0.1.0"
edition = "2021"
publish = false

[dependencies]
cosmwasm-schema = "=2.3.5"
cosmwasm-std = "=2.3.5"
cw-controllers = "=2.0.0"
cw-storage-plus = "=2.0.0"
cw20 = "=2.0.0"
serde = "=1.0.229"
thiserror = "=2.0.21"
