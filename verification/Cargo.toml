[package]
name = "dnn_core"
version = "0.1.0"
edition = "2021"
publish = false

[dependencies]
ndarray = "=0.17.2"
num-traits = "=0.2.19"
polars = { version = "=0.55.2", default-features = false, features = ["csv", "ndarray"] }
serde_json = "=1.0.154"
