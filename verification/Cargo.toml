[package]
name = "core_nft"
version = "0.1.0"
edition = "2021"
publish = false

[dependencies]
candid = "*"
hex = "*"
serde = { version = "*", features = ["derive"] }
serde_bytes = "*"
ic-cdk = "*"
ic-stable-structures = "*"
bity-ic-storage-canister-api = "*"
strum = "*"
strum_macros = "*"
