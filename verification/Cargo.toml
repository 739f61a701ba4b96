[package]
name = "stateforward_hsm"
version = "0.1.0"
edition = "2021"
publish = false

[dependencies]
thiserror = "1"
tokio = { version = "1", features = ["rt", "rt-multi-thread", "time", "sync", "macros"] }
