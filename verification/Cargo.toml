[package]
name = "socket_server"
version = "0.1.0"
edition = "2021"
publish = false

[dependencies]
async-channel = "2"
base64 = "0.22"
clap = "4"
getset = "0.1"
sha1 = "0.10"
socket2 = "0.5"
tokio = { version = "1", features = ["net", "io-util", "sync", "rt-multi-thread", "macros"] }
tracing = "0.1"
