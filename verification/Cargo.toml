[package]
name = "glacier_bin1"
version = "0.1.0"
edition = "2021"
publish = false

[dependencies]
byteorder = "=1.5.0"
Inflector = "=0.11.4"
ecow = "=0.2.6"
thiserror = "=2.0.21"
serde = { version = "=1.0.229", features = ["derive"] }
serde_json = "=1.0.154"
codegen = "=0.2.0"
lazy-regex = "3"
