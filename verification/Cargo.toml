[package]
name = "summary_migration"
version = "0.1.0"
edition = "2021"
publish = false

[dependencies]
parity-scale-codec = "3"
sp-crypto-hashing = "*"
sp-weights = "*"
sp-io = "*"
log = "0.4"
