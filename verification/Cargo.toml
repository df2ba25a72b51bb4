[package]
name = "h1codec"
version = "0.1.0"
edition = "2021"
publish = false

[dependencies]
actix-net = "=0.1.1"
bytes = "=0.4.12"
failure = "=0.1.8"
http = "=0.1.21"
httparse = "=1.3.6"
log = "0.4"
tokio-codec = "=0.1.2"
