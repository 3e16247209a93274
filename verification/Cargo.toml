[package]
name = "opgraph"
version = "0.1.0"
edition = "2021"
publish = false

[dependencies]
thiserror = "1"

[dev-dependencies]
crossbeam = "0.8"
