[package]
name = "russh"
version = "0.1.0"
edition = "2021"
publish = false

[dependencies]
byteorder = "=1.5.0"
bytes = "=1.12.1"
futures = "=0.3.34"
log = "=0.4.35"
russh-util = "=0.52.0"
ssh-encoding = { version = "=0.2.0", features = ["alloc", "bytes"] }
tokio = { version = "=1.54.1", features = ["sync", "time", "rt", "macros", "io-util"] }
