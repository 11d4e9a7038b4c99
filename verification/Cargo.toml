[package]
name = "block_poller"
version = "0.1.0"
edition = "2021"
publish = false

[dependencies]
futures = "*"
tokio = { version = "*", features = ["macros", "rt-multi-thread", "sync", "time"] }
web3 = { version = "*", default-features = false, features = ["http"] }
