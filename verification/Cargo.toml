[package]
name = "light_client"
version = "0.1.0"
edition = "2021"
publish = false

[dependencies]
crossbeam-channel = "0.5"
static_assertions = "1"
tendermint = "*"
tendermint-rpc = { version = "*", features = ["http-client"] }
tokio = { version = "1", features = ["rt"] }
