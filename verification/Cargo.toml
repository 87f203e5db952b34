[package]
name = "ic_websocket_gateway"
version = "0.1.0"
edition = "2021"
publish = false

[dependencies]
candid = "=0.10.39"
ic-agent = { version = "=0.49.3", features = ["ring"] }
ring = "=0.17.14"
serde = { version = "=1.0.229", features = ["derive"] }
serde_cbor = "=0.11.2"
structopt = "=0.3.26"
tokio = { version = "=1.54.1", features = ["full"] }
tracing = "=0.1.44"
tracing-appender = "=0.2.5"
tracing-subscriber = "=0.3.23"
