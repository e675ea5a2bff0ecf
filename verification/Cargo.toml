[package]
name = "betterproto_rust_codec"
version = "0.1.0"
edition = "2021"
publish = false

[dependencies]
chrono = { version = "0.4", default-features = false, features = ["clock", "std"] }
prost = { version = "0.12", default-features = false, features = ["std"] }
pyo3 = { version = "0.22", features = ["chrono"] }
thiserror = "1"
