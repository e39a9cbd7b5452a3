[package]
name = "o5m_stream"
version = "0.1.0"
edition = "2021"
publish = false

[dependencies]
async-std = { version = "1", features = ["attributes"] }
thiserror = "1"
