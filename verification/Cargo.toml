[package]
name = "wsmq"
version = "0.1.0"
edition = "2021"
publish = false

[dependencies]
snap = "1"
uuid = { version = "0.8", features = ["v4"] }
protobuf = "2.23"
thiserror = "1"
tokio = { version = "1", features = ["full"] }
tokio-tungstenite = { version = "0.14", features = ["rustls-tls"] }
tokio-rustls = "0.22"
rustls = { version = "0.19", features = ["dangerous_configuration"] }
futures = "0.3"
futures-channel = "0.3"
