[package]
name = "spdystream"
version = "0.1.0"
edition = "2021"
publish = false

[dependencies]
bytes = "1"
http = "1"
flate2 = { version = "1", default-features = false, features = ["zlib-rs"] }
log = "0.4"
thiserror = "1"
tokio = { version = "1", features = ["io-util", "macros", "net", "rt", "rt-multi-thread", "sync", "time"] }
