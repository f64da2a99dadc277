[package]
name = "ssh-sync"
version = "0.1.0"
edition = "2021"
publish = false

[dependencies]
aes-gcm = "=0.10.3"
anyhow = "=1.0.104"
arboard = { version = "=3.7.0", default-features = false }
argon2 = "=0.5.3"
async-trait = "=0.1.92"
axum = "=0.7.9"
base64 = "=0.22.1"
chrono = "=0.4.45"
clap = { version = "=4.6.7", features = ["derive", "env"] }
dirs = "=5.0.1"
hex = "=0.4.3"
jsonwebtoken = "=9.3.1"
rand = "=0.8.8"
reqwest = { version = "=0.12.28", default-features = false, features = ["json"] }
rusqlite = { version = "=0.31.0", features = ["bundled"] }
russh = "=0.46.0"
serde = { version = "=1.0.229", features = ["derive"] }
serde_json = { version = "=1.0.154", features = ["preserve_order"] }
thiserror = "=1.0.69"
tokio = { version = "=1.54.1", features = ["full"] }
tower-http = { version = "=0.5.2", features = ["cors", "trace"] }
tracing = "=0.1.44"
tracing-subscriber = { version = "=0.3.23", features = ["env-filter"] }
