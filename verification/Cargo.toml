[package]
name = "opuscast"
version = "0.1.0"
edition = "2021"
publish = false

[dependencies]
opus = "*"
tokio = { version = "*", features = ["full"] }
hyper = { version = "*", features = ["server", "http1"] }
hyper-util = { version = "*", features = ["server", "http1", "tokio"] }
http-body-util = "*"
tokio-stream = "*"
tokio-tungstenite = "*"
futures-util = "*"
