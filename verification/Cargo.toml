[package]
name = "abi_stable"
version = "0.1.0"
edition = "2021"
publish = false

[dependencies]
core_extensions = { version = "1", features = ["strings", "self_ops"] }
flume = { version = "*", default-features = false }
