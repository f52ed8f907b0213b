[package]
name = "nsproxy"
version = "0.1.0"
edition = "2021"
publish = false

[dependencies]
clap = "2"
log = "0.4"
tokio = { version = "1", features = ["io-util", "macros", "net", "process", "rt-multi-thread", "sync"] }
trust-dns-proto = "0.20"
