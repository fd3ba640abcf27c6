[package]
name = "kaonic"
version = "0.1.0"
edition = "2021"
publish = false

[dependencies]
axum = { version = "=0.8.9", features = ["multipart", "ws"] }
axum-server = { version = "0.7", features = ["tls-rustls-no-provider"] }
cidr = { version = "=0.3.2", features = ["serde"] }
clap = { version = "=4.6.7", features = ["derive", "env"] }
crc32fast = "=1.5.4"
env_logger = "=0.11.11"
etherparse = "=0.16.0"
hex = "=0.4.3"
if-addrs = "=0.13.4"
libc = "=0.2.191"
log = "=0.4.35"
maud = { version = "=0.27.0", features = ["axum"] }
mime_guess = "=2.0.5"
parking_lot = "=0.12.5"
rand = "=0.8.8"
reqwest = { version = "=0.12.28", default-features = false, features = ["json", "multipart", "rustls-tls-manual-roots"] }
rusqlite = { version = "=0.32.1", features = ["bundled"] }
serde = { version = "=1.0.229", features = ["derive"] }
serde_json = "=1.0.154"
sha2 = "=0.10.9"
socket2 = "=0.5.10"
tempfile = "=3.27.0"
tokio = { version = "=1.54.1", features = ["full"] }
tokio-util = "=0.7.20"
toml = "=0.8.23"
tower-http = { version = "=0.6.11", features = ["cors", "limit"] }
zip = { version = "=2.6.1", default-features = false, features = ["deflate"] }
