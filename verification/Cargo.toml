[package]
name = "isg"
version = "0.1.0"
edition = "2021"
publish = false

[dependencies]
aes-gcm = "0.10"
anyhow = "1"
argon2 = "0.5"
brotli = "*"
bytes = "1"
chrono = "0.4"
clap = { version = "4", features = ["derive"] }
flate2 = "1"
hex = "0.4"
image = { version = "0.24", default-features = false, features = ["png"] }
qrcode = "0.13"
rand = "0.8"
reed-solomon-erasure = "6"
reqwest = { version = "0.11", default-features = false, features = ["blocking", "json", "multipart", "rustls-tls"] }
rpassword = "7"
rusqlite = { version = "*", features = ["bundled"] }
serde = { version = "1", features = ["derive"] }
serde_json = "1"
sha2 = "0.10"
thiserror = "1"
tracing = "0.1"
tracing-subscriber = { version = "0.3", features = ["env-filter"] }
uuid = { version = "1", features = ["v4"] }
zstd = "0.13"
