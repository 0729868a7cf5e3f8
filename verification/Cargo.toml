[package]
name = "chain_sync"
version = "0.1.0"
edition = "2021"
publish = false

[dependencies]
rlp = "0.3.0"
keccak-hash = "0.1"
ethereum-types = "0.4"
rand = "=0.4.6"
parking_lot = "=0.13.0"
