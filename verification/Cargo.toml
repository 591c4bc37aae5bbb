[package]
name = "block_validator"
version = "0.1.0"
edition = "2021"
publish = false

[dependencies]
etcommon-bigint = "=0.2.10"
etcommon-block = "=0.3.4"
blockchain = "=0.2.0"
etcommon-bloom = "=0.2.1"
etcommon-rlp = "=0.2.5"
etcommon-trie = "=0.3.11"
ethereum-types = "=0.8.0"
sha3 = "=0.12.0"
ethash = "=0.4.0"
sputnikvm = "=0.10.1"
sputnikvm-stateful = "=0.10.0"
