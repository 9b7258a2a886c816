[package]
name = "cage"
version = "0.1.0"
edition = "2021"
publish = false

[dependencies]
anyhow = "1"
clap = { version = "4", features = ["derive"] }
dirs = "5"
libc = "0.2"
nix = { version = "0.29", features = ["fs", "process", "signal", "socket", "poll", "uio", "user"] }
rand = "0.8"
scopeguard = "1"
serde = { version = "1", features = ["derive"] }
toml = "0.8"
