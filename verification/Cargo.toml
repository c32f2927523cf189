[package]
name = "efficientloftr-onnx-rs"
version = "0.1.0"
edition = "2021"
publish = false

[dependencies]
clap = { version = "=4.6.7", features = ["derive"] }
image = "=0.25.10"
ndarray = "=0.17.2"
ort = { version = "=2.0.0-rc.15", default-features = false, features = ["std", "ndarray", "load-dynamic", "api-31"] }
serde = { version = "1", features = ["derive"] }
serde_json = "=1.0.154"
