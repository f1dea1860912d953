[package]
name = "cmppprotocol"
version = "0.1.0"
edition = "2021"
publish = false

[dependencies]
bytes = "1"
chrono = { version = "0.4", default-features = false, features = ["clock"] }
encoding_rs = "0.8"
log = "0.4"
md-5 = "0.10"
socket2 = { version = "0.6", features = ["all"] }
thiserror = "2"
tokio = { version = "1", features = ["net", "io-util", "sync", "rt", "rt-multi-thread", "time", "macros"] }
tokio-stream = "0.1"
tokio-util = { version = "0.7", features = ["codec"] }
