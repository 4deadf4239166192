[package]
name = "sync_server"
version = "0.1.0"
edition = "2021"
publish = false

[dependencies]
bincode = { version = "2", features = ["derive"] }
clap = { version = "4", features = ["derive"] }
log = "0.4"
simplelog = "0.12"
