[package]
name = "nft_staking"
version = "0.1.0"
edition = "2021"
publish = false

[dependencies]
solana-program = "=2.3.0"
mpl-token-metadata = "=5.1.1"
spl-token = "*"
