[package]
name = "btc-tx-decoder"
version = "0.1.0"
edition = "2021"
publish = false

[dependencies]
hex = "0.4"
bitcoin = "0.32"
clap = { version = "4", features = ["derive"] }
colored = "2"
prettytable-rs = "0.10"
