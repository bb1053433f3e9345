[package]
name = "bigip_targets"
version = "0.1.0"
edition = "2021"
publish = false

[dependencies]
anyhow = "1"
dns-lookup = "2"
ipnet = "2"
log = "0.4"
serde = { version = "1", features = ["derive"] }
url = "2"
