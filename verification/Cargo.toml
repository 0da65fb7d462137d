[package]
name = "nata"
version = "0.1.0"
edition = "2021"
publish = false

[dependencies]
hashbrown = "*"
pcap-file = "2.0.0-rc1"
flate2 = "1"
clap = { version = "4", features = ["derive"] }
serde_json = "1"
