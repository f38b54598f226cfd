[package]
name = "benchit"
version = "0.1.0"
edition = "2021"
publish = false

[dependencies]
anyhow = "*"
psutil = "*"
structopt = "*"
tokio = { version = "*", features = ["rt", "macros", "process", "time"] }
