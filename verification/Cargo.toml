[package]
name = "socket_forward"
version = "0.1.0"
edition = "2021"
publish = false

[dependencies]
chrono = "*"
clap = { version = "*", features = ["derive"] }
color-eyre = "*"
nix = { version = "*", features = ["socket", "uio"] }
socket2 = { version = "*", features = ["all"] }
tokio = { version = "*", features = ["full"] }
tokio-util = "*"
