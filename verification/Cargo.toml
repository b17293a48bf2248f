[package]
name = "safe_api"
version = "0.1.0"
edition = "2021"
publish = false

[dependencies]
multibase = "=0.6.0"
tiny-keccak = "=1.5.0"
rand = "=0.8.8"
chrono = "=0.4.45"
serde = { version = "1", features = ["derive"] }
serde_json = "1"
serde_yaml = "=0.9.34"
common-path = "=1.0.0"
relative-path = "=1.9.3"
safe-nd = "=0.8.0"
threshold_crypto = "=0.4.0"
urlencoding = "=2.1.3"
walkdir = "=2.5.0"
dirs-next = "=2.0.0"
structopt = "=0.3.26"
log = "0.4"
env_logger = "=0.11.11"
prettytable-rs = "=0.10.0"
ansi_term = "=0.12.1"
pretty-hex = "=0.4.2"
bincode = "1"
anyhow = "=1.0.104"
thiserror = "=1.0.69"
