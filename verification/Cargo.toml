[package]
name = "voting-contract"
version = "0.1.0"
edition = "2021"
publish = false

[dependencies]
cosmwasm-std = "2"
cosmwasm-schema = "2"
cw-storage-plus = "2"
cw2 = "2"
thiserror = "1"
