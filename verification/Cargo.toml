[package]
name = "vanity_principal"
version = "0.1.0"
edition = "2021"
publish = false

[dependencies]
bip32 = "0.5"
bip39 = "2"
ic-agent = { version = "*", default-features = false }
k256 = "0.13"
rand = "0.8"
rayon = "1"
