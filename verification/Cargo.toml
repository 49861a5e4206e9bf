[package]
name = "funds-distributor"
version = "0.1.0"
edition = "2021"
publish = false

[dependencies]
cosmwasm-std = "=1.5.11"
cosmwasm-schema = "=1.5.11"
cw-asset = "=3.1.1"
