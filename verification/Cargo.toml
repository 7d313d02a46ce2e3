[package]
name = "raft_core"
version = "0.1.0"
edition = "2021"
publish = false

[dependencies]
tokio = { version = "1", features = ["rt", "macros", "sync", "time"] }
async-trait = "0.1"
