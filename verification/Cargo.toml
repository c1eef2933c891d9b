[package]
name = "vertx"
version = "0.1.0"
edition = "2021"
publish = false

[dependencies]
crc = "=3.4.0"
atoi = "=2.0.0"
itoa = "=1.0.18"
heapless = "=0.8.0"
httparse = { version = "=1.10.1", default-features = false }
embedded-io-async = "=0.6.1"
serde = { version = "=1.0.229", features = ["derive"] }
