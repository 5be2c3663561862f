[package]
name = "leaf"
version = "0.1.0"
edition = "2021"
publish = false

[dependencies]
bytes = "=1.12.1"
memchr = "=2.8.3"
log = "=0.4.34"
futures = "=0.3.34"
tokio = { version = "=1.53.2", features = ["rt", "rt-multi-thread", "sync", "io-util", "time"] }
winapi = { version = "=0.3.9", features = ["fileapi", "handleapi", "winnt"] }
