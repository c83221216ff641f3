[package]
name = "ipfs_offchain"
version = "0.1.0"
edition = "2021"
publish = false

[dependencies]
fnv = "=1.0.7"
frame-support = "38"
frame-system = "38"
futures = "=0.3.34"
log = "=0.4.35"
rand = "=0.7.3"
sp-core = "34"
sp-io = "38"
sp-std = "14"
sp-utils = "=2.0.1"
