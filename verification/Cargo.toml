[package]
name = "coin_select_sim"
version = "0.1.0"
edition = "2021"
publish = false

[dependencies]
bdk_coin_select = "0.3"
bitcoin = { version = "0.32", default-features = false, features = ["std"] }
csv = "1"
serde = { version = "1", features = ["derive"] }
statistical = "1"
