[package]
name = "xchannel_net"
version = "0.1.0"
edition = "2021"
publish = false

[dependencies]
xchannel = "*"
clap = { version = "4", features = ["derive", "env"] }
