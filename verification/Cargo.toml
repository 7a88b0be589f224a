[package]
name = "rep_notary"
version = "0.1.0"
edition = "2021"
publish = false

[dependencies]
axum = "0.7"
bincode = "1.3"
eyre = "0.6"
flate2 = "1"
futures = "0.3"
futures-util = "0.3"
hex = "0.4"
http-body-util = "0.1"
hyper = { version = "1", features = ["client", "http1"] }
hyper-util = { version = "0.1", features = ["tokio"] }
k256 = { version = "0.13", features = ["ecdsa"] }
regex = "1"
serde = { version = "1", features = ["derive"] }
serde_json = "1"
tokio = { version = "1", features = ["full"] }
tokio-tungstenite = { version = "0.21", features = ["rustls-tls-webpki-roots"] }
tokio-util = { version = "0.7", features = ["compat"] }
tracing = "0.1"
url = "2"
