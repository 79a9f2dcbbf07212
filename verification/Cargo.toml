[package]
name = "opencapx"
version = "0.1.0"
edition = "2021"
publish = false

[dependencies]
aes-gcm = "=0.10.3"
arboard = { version = "=3.7.0", default-features = false, features = ["image-data"] }
base64 = "=0.22.1"
clap = { version = "=4.6.7", features = ["derive"] }
dirs = "=5.0.1"
getrandom = "=0.2.17"
hmac = "=0.12.1"
image = { version = "0.25", default-features = false, features = ["png"] }
keyring = "=3.6.3"
pbkdf2 = "=0.12.2"
reqwest = { version = "=0.12.28", default-features = false, features = ["blocking", "json"] }
rusqlite = { version = "=0.32.1", features = ["bundled"] }
scraper = "=0.22.0"
serde = { version = "=1.0.229", features = ["derive"] }
serde_json = "=1.0.154"
serde_yaml = "=0.9.34"
sha2 = "=0.10.9"
uuid = { version = "=1.29.0", features = ["v4"] }
