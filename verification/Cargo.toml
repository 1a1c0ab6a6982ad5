[package]
name = "legendary"
version = "0.1.0"
edition = "2021"
publish = false

[dependencies]
byteorder = "1"
flate2 = "1"
sha1 = "0.10"
sha2 = "0.10"
hex = "0.4"
urlencoding = "2"
anyhow = "1"
serde = { version = "1", features = ["derive"] }
serde_json = "1"
toml = "0.8"
home = "0.5"
chrono = "0.4"
log = "0.4"
env_logger = "0.10"
rand = "0.8"
fs2 = "0.4"
libc = "0.2"
reqwest = { version = "0.11", default-features = false, features = ["blocking", "json", "rustls-tls"] }
