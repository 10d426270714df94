[package]
name = "perlrs"
version = "0.1.0"
edition = "2021"
publish = false

[dependencies]
regex = "1"
fancy-regex = "*"
crossbeam = "0.8"
serde = { version = "1", features = ["derive"] }
serde_json = "1"
bincode = "1"
indexmap = "2"
glob = "0.3"
libc = "0.2"
parking_lot = "0.12"
