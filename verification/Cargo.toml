[package]
name = "wynd_stake"
version = "0.1.0"
edition = "2021"
publish = false

[dependencies]
cosmwasm-std = "1.5"
cosmwasm-schema = "1.5"
cw-storage-plus = "1.2"
cw2 = "1.1"
cw20 = "1.1"
itertools = "0.10"
thiserror = "1"
wynd-utils = "*"
