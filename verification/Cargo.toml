[package]
name = "rsp"
version = "0.1.0"
edition = "2021"
publish = false

[dependencies]
nom = "8"
regex = "1"
owo-colors = "4"
rustyline = "14"
clap = { version = "4", features = ["derive"] }
anyhow = "1"
thiserror = "1"
dirs = "5"
lazy_static = "1"
tracing = "0.1"
tracing-subscriber = { version = "0.3", features = ["env-filter"] }
