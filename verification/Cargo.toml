[package]
name = "wasmedge_factory"
version = "0.1.0"
edition = "2021"
publish = false

[dependencies]
arrow = "=51.0.0"
async-trait = "=0.1.92"
chrono = "=0.4.38"
datafusion = { version = "=37.1.0", default-features = false }
project-root = "=0.2.2"
thiserror = "=1.0.69"
wasmedge-sdk = "=0.13.2"
