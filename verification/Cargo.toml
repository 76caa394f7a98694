[package]
name = "outlook_email"
version = "0.1.0"
edition = "2021"
publish = false

[dependencies]
aes-gcm = "0.10"
argon2 = "0.5"
base64 = "0.22"
chrono = "0.4"
directories = "5"
imap = "2.4"
lettre = "0.11"
mailparse = "0.15"
native-tls = "0.2"
rand = "0.8"
reqwest = { version = "0.12", features = ["blocking", "json"] }
rusqlite = { version = "0.31", features = ["bundled"] }
serde = { version = "1", features = ["derive"] }
serde_json = "1"
sha2 = "0.10"
thiserror = "1"
urlencoding = "2"
uuid = { version = "1", features = ["v4"] }
