[package]
name = "baza-core"
version = "0.1.0"
edition = "2021"
publish = false

[dependencies]
aes-gcm = "=0.10.3"
sha2 = "=0.10.9"
rand = "=0.9.5"
crc32fast = "=1.5.3"
lz4_flex = "=0.11.6"
flate2 = "=1.1.10"
zstd = "=0.13.3"
regex = "=1.13.1"
uuid = { version = "=1.29.0", features = ["v4"] }
clap = { version = "=4.6.7", features = ["derive"] }
serde = { version = "=1.0.229", features = ["derive"] }
toml = "=1.1.8"
postcard = { version = "=1.1.3", features = ["use-std"] }
redb = "=4.4.0"
arboard = "=3.7.0"
colored = "=3.1.1"
anyhow = "=1.0.104"
git2 = { version = "*", default-features = false }
walkdir = "2"
tempfile = "3"
thiserror = "2"
