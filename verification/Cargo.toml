[package]
name = "scrollz"
version = "0.1.0"
edition = "2021"
publish = false

[dependencies]
crc32fast = "1"
serde_json = "1"
libc = "0.2"
log = "0.4"
fuser = "*"
redb = "*"
parking_lot = "0.12"
dashmap = "*"
clap = { version = "4", features = ["derive"] }
env_logger = "*"
