[package]
name = "fishfinder"
version = "0.1.0"
edition = "2021"
publish = false

[dependencies]
hex = "0.4"
tokio = { version = "1", features = ["rt", "rt-multi-thread", "net", "time", "io-util", "fs", "macros", "sync"] }
rtlsdr_mt = "2"
