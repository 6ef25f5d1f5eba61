[package]
name = "hyper_client"
version = "0.1.0"
edition = "2021"
publish = false

[dependencies]
futures = "=0.3.34"
http-types = { version = "=2.12.0", features = ["hyperium_http"] }
hyper = "=0.13.10"
hyper-tls = "=0.4.3"
