[package]
name = "nostr_dice"
version = "0.1.0"
edition = "2021"
publish = false

[dependencies]
bitcoin = "*"
hex = "0.4"
rand = "0.8"
