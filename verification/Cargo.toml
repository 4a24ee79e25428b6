[package]
name = "bugout"
version = "0.1.0"
edition = "2021"
publish = false

[dependencies]
chrono = { version = "=0.4.45", features = ["serde"] }
crossbeam-channel = "=0.4.4"
futures = "=0.3.34"
log = "=0.4.34"
r2d2_redis = "=0.13.0"
rand = "=0.7.3"
rdkafka = "=0.23.1"
redis = "=0.20.2"
redis-stream = "=0.1.2"
serde = { version = "=1.0.229", features = ["derive"] }
serde_json = "=1.0.154"
uuid = { version = "=0.8.2", features = ["v4", "serde"] }
