[package]
name = "autonat_codec"
version = "0.1.0"
edition = "2021"
publish = false

[dependencies]
libp2p-core = "*"
futures = "*"
rand = "*"
