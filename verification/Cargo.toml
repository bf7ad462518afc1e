[package]
name = "twitch_data"
version = "0.1.0"
edition = "2021"
publish = false

[dependencies]
chrono = { version = "=0.4.45", default-features = false, features = ["now", "std"] }
futures = "=0.3.34"
log = "=0.4.35"
reqwest = { version = "=0.12.28", default-features = false, features = ["rustls-tls"] }
serde = { version = "=1.0.229", features = ["derive"] }
serde_json = "=1.0.154"
simplelog = "=0.12.2"
tokio = { version = "=1.54.1", features = ["fs", "io-util", "macros", "process", "rt-multi-thread", "time"] }
twitch_api = { version = "=0.7.2", features = ["client", "helix", "reqwest"] }
twitch_oauth2 = { version = "=0.15.2", features = ["client", "reqwest"] }
twitch_types = "=0.4.10"
