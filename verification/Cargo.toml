[package]
name = "nzb-news"
version = "0.1.0"
edition = "2021"
publish = false

[dependencies]
nzb-nntp = ">=0.2.0, <0.2.14"
tokio = { version = "1", features = ["rt", "sync", "time", "macros"] }
tracing = "0.1"
