[package]
name = "talksage"
version = "0.1.0"
edition = "2021"
publish = false

[dependencies]
serde = { version = "=1.0.229", features = ["derive"] }
serde_json = "=1.0.154"
anyhow = "=1.0.104"
libloading = "=0.8.9"
hmac = "=0.12.1"
sha1 = "=0.10.7"
base64 = "=0.22.1"
ureq = { version = "=2.12.1", features = ["json"] }
uuid = { version = "=1.29.0", features = ["v4"] }
toml = "=0.8.23"
clap = { version = "=4.6.7", features = ["derive"] }
tar = "=0.4.46"
bzip2 = "=0.4.4"
tokio = { version = "1", features = ["rt-multi-thread", "sync", "macros", "time"] }
tokio-tungstenite = { version = "0.24", features = ["rustls-tls-webpki-roots"] }
futures-util = "0.3"
