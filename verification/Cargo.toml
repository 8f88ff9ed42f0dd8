[package]
name = "nft_indexer"
version = "0.1.0"
edition = "2021"
publish = false

[dependencies]
regex = "*"
ethers = "*"
tokio = { version = "*", features = ["rt-multi-thread", "time"] }
