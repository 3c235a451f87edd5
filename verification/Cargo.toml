[package]
name = "async_server"
version = "0.1.0"
edition = "2021"
publish = false

[dependencies]
epoll = "4"
signal-hook = "0.3"
tokio = { version = "1", features = ["full"] }
