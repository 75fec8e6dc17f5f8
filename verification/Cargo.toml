[package]
name = "locutus"
version = "0.1.0"
edition = "2021"
publish = false

[dependencies]
crossbeam = "0.8"
rand = "0.8"
uuid = { version = "1", features = ["v4"] }
futures-util = "0.3"
rayon = "1"
tokio = { version = "1", features = ["full"] }
tokio-tungstenite = "*"
tracing = "0.1"
tracing-subscriber = "0.3"
