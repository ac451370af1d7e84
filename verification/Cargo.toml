[package]
name = "kafka_wire"
version = "0.1.0"
edition = "2021"
publish = false

[dependencies]
anyhow = "1"
crc32c = "0.6"
thiserror = "1"
