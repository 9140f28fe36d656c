[package]
name = "netease_toolkit"
version = "0.1.0"
edition = "2021"
publish = false

[dependencies]
aes = "0.8"
md-5 = "0.10"
base64 = "0.22"
qrcode = "0.14"
image = { version = "0.25", default-features = false, features = ["png"] }
serde = { version = "1", features = ["derive"] }
serde_json = "1"
rand = "0.8"
reqwest = { version = "0.12", default-features = false, features = ["json", "cookies", "stream", "rustls-tls"] }
futures-util = "0.3"
bytes = "1"
tokio = { version = "1", features = ["rt-multi-thread", "macros"] }
anyhow = "1"
dirs-next = "2"
id3 = "1"
mp4 = "*"
mp4ameta = "*"
symphonia = "*"
mp3lame-encoder = "*"
fdk-aac = "*"
