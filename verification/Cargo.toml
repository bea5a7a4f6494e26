[package]
name = "chirpmunk"
version = "0.1.0"
edition = "2021"
publish = false

[dependencies]
minicbor = { version = "=0.25.1", features = ["std", "half"] }
chrono = "=0.4.45"
uuid = { version = "=1.29.0", features = ["v4"] }
serde = { version = "=1.0.229", features = ["derive"] }
toml = "0.9"
tokio = { version = "=1.54.1", features = ["full"] }
clap = { version = "=4.6.7", features = ["derive"] }
anyhow = "=1.0.104"
thiserror = "=2.0.21"
tracing = "=0.1.44"
tracing-subscriber = { version = "=0.3.23", features = ["env-filter"] }
rustfft = "=6.4.1"
futuresdr = { version = "=0.0.41", default-features = false }
soapysdr = "=0.5.1"
