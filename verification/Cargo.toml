[package]
name = "envdump"
version = "0.1.0"
edition = "2021"
publish = false

[dependencies]
anstream = "*"
anstyle = "*"
anyhow = "*"
clap = { version = "*", features = ["derive"] }
globset = "*"
regex = "*"
