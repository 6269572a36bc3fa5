[package]
name = "bp-node"
version = "0.1.0"
edition = "2021"
publish = false

[dependencies]
amplify = "4"
strict_encoding = "2"
bp-std = "0.12.0-rc.1"
netservices = "0.8"
cyphernet = "0.5"
bp-wallet = { version = "0.12.0-rc.1", features = ["cli"] }
clap = { version = "4", features = ["derive"] }
