[package]
name = "cabal"
version = "0.1.0"
edition = "2021"
publish = false

[dependencies]
parking_lot = "=0.12.5"
thiserror = "=1.0.69"
tokio = { version = "=1.54.1", features = ["sync", "rt", "macros"] }
tracing = "=0.1.44"
trinkets = "=0.1.0"
uuid = "1"
warhorn = "=0.1.0"
