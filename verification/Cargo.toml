[package]
name = "mini_cloudflared"
version = "0.3.0"
edition = "2021"
publish = false

[dependencies]
anyhow = "1"
base64 = "0.22"
bytes = "1"
capnp = "0.20"
capnp-rpc = "0.20"
clap = { version = "4", features = ["derive", "env"] }
dirs-next = "2"
futures-util = { version = "0.3", features = ["io"] }
h2 = "0.4"
hex = "0.4"
http = "1"
httparse = "1"
rand = "0.8"
rustls = "0.21"
rustls-native-certs = "0.6"
serde = { version = "1", features = ["derive"] }
serde_json = "1"
serde_yaml = "0.9"
tokio = { version = "1", features = ["full"] }
tokio-rustls = "0.24"
tracing = "0.1"
tracing-subscriber = { version = "0.3", features = ["env-filter"] }
url = "2"
uuid = { version = "1", features = ["v4"] }
webpki-roots = "0.25"
