[package]
name = "jetx_scraper"
version = "0.1.0"
edition = "2021"
publish = false

[dependencies]
actix-web = "4"
colored = "2"
futures-util = "0.3"
native-tls = "0.2"
serde_json = "1"
tokio = { version = "1", features = ["full"] }
tokio-tungstenite = { version = "0.21", features = ["native-tls"] }
