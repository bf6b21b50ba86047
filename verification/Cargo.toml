[package]
name = "escanor"
version = "0.1.5"
edition = "2021"
publish = false

[dependencies]
anyhow = "=1.0.104"
async-raft = "=0.6.1"
async-trait = "=0.1.92"
bincode = "=1.3.3"
clap = "=4.6.7"
crc16 = "=0.4.0"
glob = "=0.3.4"
jsonpath_lib = "=0.3.0"
nanoid = "=0.5.0"
rstar = "=0.13.0"
serde = { version = "=1.0.229", features = ["derive"] }
serde_json = "=1.0.151"
serde_yaml = "=0.9.34"
sled = "=0.34.7"
tokio = { version = "=1.53.2", features = ["full"] }

[dev-dependencies]
geohash = "=0.13.2"
