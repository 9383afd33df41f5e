[package]
name = "namada_wallet"
version = "0.1.0"
edition = "2021"
publish = false

[dependencies]
tendermint-rpc = { version = "0.38", features = ["http-client"] }
rand_core = { version = "0.6", features = ["getrandom"] }
tokio = { version = "1", features = ["macros", "rt-multi-thread", "fs"] }
toml = "0.8"
