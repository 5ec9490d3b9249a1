[package]
name = "rerun_simple_gs"
version = "0.1.0"
edition = "2021"
publish = false

[dependencies]
anyhow = "=1.0.104"
glam = "0.34"
thiserror = "2"
tokio = { version = "1", features = ["rt-multi-thread", "macros"] }
