[package]
name = "smf_status"
version = "0.1.0"
edition = "2021"
publish = false

[dependencies]
anyhow = "*"
chrono = "*"
clap = { version = "*", features = ["derive"] }
colored = "*"
exec = "*"
indexmap = "*"
libcontract = "*"
regex = "*"
smf = "*"
