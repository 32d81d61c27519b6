[package]
name = "orderbook_aggregator"
version = "0.1.0"
edition = "2021"
publish = false

[dependencies]
serde_json = "=1.0.154"
tokio = { version = "=1.54.1", features = ["full"] }
tokio-stream = "=0.1.19"
tokio-websockets = { version = "=0.13.3", features = ["client", "fastrand", "ring", "rustls-webpki-roots"] }
tonic = "=0.12.3"
prost = "=0.13.5"
clap = { version = "=4.6.7", features = ["derive"] }
futures = "=0.3.34"
http = "=1.5.0"
bytes = "=1.12.1"
bitstamp_client_ws = "=0.2.0"
