[package]
name = "chatlog"
version = "0.1.0"
edition = "2021"
publish = false

[dependencies]
anyhow = "1"
axum = "0.6"
chrono = "=0.4.45"
futures = "0.3"
rayon = "1"
schemars = "0.8"
serde = { version = "1", features = ["derive"] }
serde_json = "1"
serde_repr = "0.1"
strum = { version = "0.25", features = ["derive"] }
tokio = { version = "1", features = ["fs", "io-util", "rt", "macros"] }
tracing = "0.1"
tmi = { version = "=0.10.0", default-features = false }
twitch-irc = { version = "5", default-features = false }
