[package]
name = "danse"
version = "0.1.0"
edition = "2021"
publish = false

[dependencies]
base64 = "*"
bytes = "*"
chrono = "*"
config = "*"
fern = "*"
log = "*"
lru = "*"
reqwest = { version = "*", default-features = false }
tokio = { version = "*", features = ["full"] }
trust-dns-proto = "*"
