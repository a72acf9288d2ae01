[package]
name = "site"
version = "0.1.0"
edition = "2021"
publish = false

[dependencies]
futures = "=0.3.34"
headers = "=0.3.9"
hex = "=0.4.3"
http = "=0.2.12"
hyper = "=0.13.10"
lazy_static = "=1.5.1"
log = "=0.4.35"
parking_lot = "=0.10.2"
ring = "=0.16.20"
rmp-serde = "1"
serde = { version = "=1.0.229", features = ["derive"] }
serde_json = "=1.0.154"
