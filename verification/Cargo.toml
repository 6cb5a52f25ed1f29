[package]
name = "pb-clipboard"
version = "0.1.0"
edition = "2021"
publish = false

[dependencies]
anyhow = "1"
arboard = "3"
colored = "2"
glob = "0.3"
regex = "1"
zhconv = "0.3"
