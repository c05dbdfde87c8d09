[package]
name = "ledstrip"
version = "0.1.0"
edition = "2021"
publish = false

[dependencies]
image = { version = "=0.25.10", default-features = false, features = ["png"] }
serde_json = "=1.0.154"
palette = "=0.7.7"
smart-leds = "=0.4.0"
ws2812-spi = { version = "=0.5.1", features = ["std"] }
rppal = { version = "=0.22.1", features = ["hal"] }
tokio = { version = "=1.54.1", features = ["full"] }
futures = "=0.3.34"
reqwest = { version = "=0.12.28", default-features = false, features = ["json", "rustls-tls"] }
webrtc-dtls = "=0.12.0"
webrtc-util = { version = "=0.11.0", default-features = false, features = ["conn"] }
thiserror = "=1.0.69"
