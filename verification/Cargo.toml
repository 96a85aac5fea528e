[package]
name = "r2n"
version = "0.1.0"
edition = "2021"
publish = false

[dependencies]
base64 = "0.22"
chacha20poly1305 = "0.10"
crossbeam-queue = "0.3"
dashmap = "6"
ed25519-dalek = "2"
etherparse = "0.13"
hex = "0.4"
ipnet = "2"
postcard = { version = "1", default-features = false, features = ["use-std"] }
rand = "0.8"
ratelimit = "0.10"
snow = "0.9"
stun-rs = "0.1"
x25519-dalek = { version = "2", features = ["static_secrets"] }
anyhow = "1"
axum = { version = "0.7", default-features = false, features = ["http1", "json", "tokio"] }
chrono = { version = "0.4", default-features = false, features = ["now"] }
clap = { version = "4", features = ["derive"] }
dirs = "*"
if-addrs = "*"
igd-next = { version = "*", features = ["aio_tokio"] }
natpmp = { version = "*", features = ["tokio"] }
net-route = "*"
netdev = "*"
pcp-client = "*"
serde = { version = "1", features = ["derive"] }
serde_json = "1"
tokio = { version = "1", features = ["full"] }
toml = "0.8"
tun-rs = { version = "*", features = ["async"] }
