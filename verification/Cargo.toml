[package]
name = "lottery_game"
version = "0.1.0"
edition = "2021"
publish = false

[dependencies]
anchor-lang = { version = "=0.32.2", default-features = false }
orao-solana-vrf = { version = "=0.7.0", default-features = false, features = ["cpi"] }
