[package]
name = "hftbacktest"
version = "0.1.0"
edition = "2021"
publish = false

[dependencies]
anyhow = "1"
clap = { version = "4", features = ["derive"] }
csv = "1"
flate2 = "1"
npyz = { version = "*", features = ["derive"] }
pyo3 = { version = "*", features = ["extension-module", "abi3-py38"] }
rust_decimal = "1"
serde = { version = "1", features = ["derive"] }
tempfile = "3"
thiserror = "*"
zip = { version = "*", default-features = false, features = ["deflate"] }
