[package]
name = "cat_dev"
version = "0.1.0"
edition = "2021"
publish = false

[dependencies]
bytes = "=1.12.1"
configparser = "=3.3.0"
fnv = "1"
tokio = { version = "=1.54.1", features = ["fs"] }
