[package]
name = "navis"
version = "0.1.0"
edition = "2021"
publish = false

[dependencies]
uuid = { version = "1.29.0", features = ["v4"] }
base64 = "0.22.1"
sha2 = "0.10.9"
hex = "0.4.3"
aes-gcm = "0.10.3"
argon2 = "0.5.3"
rand = "0.8.8"
chrono = "0.4.45"
zeroize = "1.8.2"
serde = { version = "1.0.229", features = ["derive"] }
serde_json = "1.0.154"
thiserror = "1.0.69"
parking_lot = "0.12.5"
tokio = { version = "1.54.1", features = ["rt-multi-thread", "macros", "sync", "time"] }
tracing = "0.1.44"
tracing-subscriber = { version = "0.3.23", features = ["env-filter", "fmt"] }
keyring = "3.6.3"
sqlx = { version = "0.8.6", default-features = false, features = ["runtime-tokio", "sqlite"] }
russh = "0.51.1"
async-trait = "0.1.92"
which = "6.0.3"
