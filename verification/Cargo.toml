[package]
name = "kugelblitz"
version = "0.1.0"
edition = "2021"
publish = false

[dependencies]
base64 = "=0.11.0"
bincode = "=1.3.3"
chrono = "=0.4.45"
console = "=0.10.3"
flexi_logger = { version = "=0.15.12", features = ["ziplogs"] }
hey_listen = "=0.4.0"
Inflector = "=0.11.4"
lazy_static = "=1.5.1"
log = { version = "=0.4.35", features = ["kv_unstable"] }
markov = "=1.1.0"
parking_lot = { version = "=0.10.2", features = ["deadlock_detection"] }
regex = "=1.13.1"
reqwest = { version = "=0.10.10", default-features = false, features = ["blocking", "json", "rustls-tls"] }
serde = { version = "=1.0.229", features = ["derive"] }
serde_json = "=1.0.154"
serde_yaml = "=0.8.26"
serenity = "=0.8.9"
sled = "=0.34.7"
tempfile = "=3.27.0"
toml = "=0.5.11"
white_rabbit = "=0.1.1"
