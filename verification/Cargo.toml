[package]
name = "hierarchical_fsm"
version = "0.1.0"
edition = "2021"
publish = false

[dependencies]
thiserror = "2"
tokio = { version = "1", features = ["rt", "sync", "time", "macros"] }
