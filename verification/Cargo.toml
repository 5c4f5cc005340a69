[package]
name = "netsandbox"
version = "0.6.1"
edition = "2021"
publish = false

[dependencies]
anyhow = "1"
chrono = { version = "0.4", features = ["serde"] }
clap = { version = "4", features = ["derive", "env"] }
directories = "6"
fs2 = "0.4"
hex = "0.4"
nix = { version = "0.30", features = ["fs", "user"] }
serde = { version = "1", features = ["derive"] }
serde_json = "1"
sha2 = "0.10"
similar = "2"
socket2 = { version = "0.6", features = ["all"] }
uuid = { version = "1", features = ["v4", "serde"] }
walkdir = "2"
xattr = "1"
