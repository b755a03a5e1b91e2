[package]
name = "stable_accounts"
version = "0.1.0"
edition = "2021"
publish = false

[dependencies]
ic-stable-structures = "0.6"
