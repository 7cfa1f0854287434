[package]
name = "playlist_sync"
version = "0.1.0"
edition = "2021"
publish = false

[dependencies]
anyhow = "=1.0.104"
argon2 = "=0.5.3"
async-trait = "=0.1.92"
axum = "=0.8.9"
axum-login = "=0.17.0"
base64 = "=0.22.1"
bincode = "=1.3.3"
chacha20poly1305 = "0.10"
chrono = "=0.4.45"
dotenv = "=0.15.0"
password-auth = "=1.0.0"
rand = "=0.8.8"
reqwest = { version = "=0.12.28", default-features = false, features = ["json"] }
rspotify = { version = "=0.13.3", default-features = false, features = ["client-reqwest"] }
serde = { version = "=1.0.229", features = ["derive"] }
serde_json = "=1.0.151"
sha2 = "=0.10.9"
sled = "=0.34.7"
thiserror = "=1.0.69"
time = "=0.3.55"
tokio = { version = "=1.53.2", features = ["full"] }
tracing = "=0.1.44"
tracing-subscriber = "=0.3.23"
url = "=2.5.8"
urlencoding = "=2.1.3"
uuid = { version = "=1.27.0", features = ["v4"] }
