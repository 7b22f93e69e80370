[package]
name = "nft-egress-daemon"
version = "0.1.0"
edition = "2021"
publish = false

[dependencies]
inotify = { version = "0.11", default-features = false }
libc = "0.2"
