[package]
name = "bataille"
version = "0.1.0"
edition = "2021"
publish = false

[dependencies]
stylus-sdk = "=0.4.3"
rand = "=0.8.8"
mini-alloc = "=0.4.2"
alloy-primitives = { version = "=0.3.3", default-features = false, features = ["tiny-keccak"] }
ruint = { version = "~1.12", default-features = false }
