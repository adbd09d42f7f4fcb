[package]
name = "http_server"
version = "0.1.0"
edition = "2021"
publish = false

[dependencies]
async-executor = "=1.14.0"
async-io = "=2.6.0"
async-tls = "=0.13.0"
futures-lite = "=2.6.1"
log = "=0.4.34"
rustls = "=0.21.12"
rustls-pemfile = "=1.0.4"
