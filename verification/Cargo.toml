[package]
name = "p1mon"
version = "0.1.0"
edition = "2021"
publish = false

[dependencies]
async-trait = "*"
chrono = { version = "*", default-features = false, features = ["std"] }
crc16 = "*"
env_logger = "*"
log = "*"
serialport = { version = "*", default-features = false }
tokio = { version = "*", features = ["rt-multi-thread", "macros", "sync", "time"] }
ygw = "*"
