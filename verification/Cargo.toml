[package]
name = "flying"
version = "0.1.0"
edition = "2021"
publish = false

[dependencies]
aes-gcm = "*"
ring = "*"
sha2 = "*"
clap = { version = "*", features = ["derive"] }
humansize = "*"
humantime = "*"
petname = "*"
socket2 = "*"
tokio = { version = "*", features = ["io-util", "net", "rt-multi-thread", "macros", "fs"] }
