[package]
name = "tablekv"
version = "0.1.0"
edition = "2021"
publish = false

[dependencies]
byteorder = "1"
bytes = "0.4"
rocksdb = { version = "0.14", default-features = false }
