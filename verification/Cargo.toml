[package]
name = "schedule_manager"
version = "1.0.0"
edition = "2021"
publish = false

[dependencies]
anyhow = "1"
argon2 = "0.5"
axum = { version = "0.8", default-features = false, features = ["json", "tokio", "http1"] }
chrono = { version = "0.4", default-features = false, features = ["clock", "serde"] }
chrono-tz = "0.10"
directories = "6"
keyring = { version = "3", default-features = false }
lettre = { version = "0.11", default-features = false, features = ["builder", "smtp-transport", "native-tls"] }
lunar-lite = "*"
notify-rust = { version = "4", default-features = false, features = ["d_vendored"] }
openssl = { version = "0.10", features = ["vendored"] }
rand = "0.9"
reqwest = { version = "0.12", default-features = false, features = ["json", "native-tls"] }
rusqlite = { version = "*", features = ["bundled"] }
rustls-native-certs = "0.8"
serde = { version = "1", features = ["derive"] }
serde_json = "1"
sha2 = "0.10"
tokio = { version = "1", features = ["macros", "rt-multi-thread", "net", "signal", "time"] }
tracing = "0.1"
tracing-subscriber = { version = "0.3", default-features = false, features = ["fmt", "std", "env-filter"] }
url = "2"
uuid = { version = "1", features = ["v4"] }
