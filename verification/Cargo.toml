[package]
name = "btdt"
version = "0.1.0"
edition = "2021"
publish = false

[dependencies]
anyhow = "=1.0.104"
biscuit-auth = { version = "=6.0.0", features = ["pem"] }
blake3 = "=1.8.7"
bytes = "=1.12.1"
chrono = "=0.4.45"
clap = { version = "=4.6.7", features = ["derive", "env"] }
config = { version = "=0.15.27", default-features = false, features = ["toml"] }
data-encoding = "=2.11.1"
fs2 = "=0.4.3"
futures-core = "=0.3.34"
humantime = "=2.4.0"
poem = { version = "=3.1.12", features = ["native-tls"] }
poem-openapi = { version = "=5.1.16", features = ["swagger-ui"] }
rand = "=0.9.5"
rustls = "=0.23.46"
rustls-platform-verifier = "=0.7.1"
serde = { version = "=1.0.229", features = ["derive"] }
tar = "=0.4.46"
tokio = { version = "=1.54.1", features = ["rt-multi-thread", "macros", "signal"] }
tokio-util = { version = "=0.7.20", features = ["io", "io-util"] }
url = "=2.5.8"
zeroize = "=1.9.1"
