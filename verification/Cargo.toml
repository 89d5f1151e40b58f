[package]
name = "gated_listener"
version = "0.1.0"
edition = "2021"
publish = false

[dependencies]
color-eyre = "0.6"
futures = "0.3"
hyper = { version = "0.14", features = ["full"] }
socket2 = "0.4"
tokio = { version = "1", features = ["full"] }
