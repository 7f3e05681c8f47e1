[package]
name = "volley"
version = "0.1.0"
edition = "2021"
publish = false

[dependencies]
nanoid = "*"
tokio = { version = "1", features = ["net", "sync", "time", "io-util", "rt-multi-thread", "macros"] }
