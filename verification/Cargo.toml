[package]
name = "keeplin-core"
version = "0.1.0"
edition = "2021"
publish = false

[dependencies]
uuid = { version = "1", features = ["v4"] }
chrono = "0.4"
base64 = "0.22"
aes-gcm = "0.10"
argon2 = "0.5"
serde = { version = "1", features = ["derive"] }
serde_json = "1"
reqwest = { version = "0.12", default-features = false, features = ["json"] }
async-trait = "0.1"
thiserror = "1"
tokio = { version = "1", features = ["rt", "macros", "sync"] }
