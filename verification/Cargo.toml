[package]
name = "echorv"
version = "0.2.0"
edition = "2021"
publish = false

[dependencies]
object = "*"
addr2line = "*"
anyhow = "*"
clap = { version = "4", features = ["derive"] }
serde = { version = "1", features = ["derive"] }
serde_json = "1"
tempfile = "3"
thiserror = "*"
wait-timeout = "*"

[dev-dependencies]
regex = "1"
