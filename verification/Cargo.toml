[package]
name = "dual_transfer"
version = "0.1.0"
edition = "2021"
publish = false

[dependencies]
clap = "4"
solana-sdk = "=1.18.26"
