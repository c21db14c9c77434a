[package]
name = "composer_rs"
version = "0.1.0"
edition = "2021"
publish = false

[dependencies]
ahash = "0.8"
anyhow = "1"
blake3 = { version = "=1.8.7", default-features = false, features = ["std"] }
bzip2 = "*"
clap = { version = "4", features = ["derive"] }
console = "0.15"
directories = "*"
flate2 = "1"
fs4 = "0.13"
futures = "0.3"
hex = "=0.4.3"
indicatif = "0.17"
md5 = "=0.7.0"
num_cpus = "1"
pubgrub = "=0.3.0"
regex = "=1.13.1"
reqwest = { version = "0.12", default-features = false, features = ["http2", "json", "rustls-tls", "stream"] }
serde_json = { version = "=1.0.154", features = ["preserve_order"] }
sha1 = "=0.10.7"
sha2 = "=0.10.9"
tar = "0.4"
tempfile = "3"
tokio = { version = "1", features = ["rt-multi-thread", "macros", "fs", "process", "time", "sync", "io-util"] }
tracing = "0.1"
tracing-subscriber = { version = "0.3", features = ["env-filter"] }
url = "=2.5.8"
version-ranges = "=0.1.3"
walkdir = "2"
xz2 = "0.1"
zip = { version = "2", default-features = false, features = ["deflate"] }
