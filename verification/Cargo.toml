[package]
name = "spotdl"
version = "0.1.0"
edition = "2021"
publish = false

[dependencies]
librespot = { version = "=0.4.2", default-features = false }
ahash = "=0.8.12"
base64 = "=0.22.1"
anyhow = "1"
async-trait = "0.1"
bytes = { version = "1", features = ["serde"] }
clap = { version = "4", default-features = false, features = ["std", "derive", "env", "help", "usage", "error-context"] }
flume = "0.11"
futures = "0.3"
id3 = "1"
indicatif = "0.17"
notify = "7"
reqwest = { version = "0.12", default-features = false }
serde = { version = "1", features = ["derive"] }
serde_json = "1"
tempfile = "3"
thiserror = "1"
tokio = { version = "1", features = ["macros", "rt-multi-thread", "fs", "net", "io-util", "io-std", "sync", "time", "process"] }
tracing = "0.1"
tracing-subscriber = { version = "0.3", features = ["env-filter"] }
wav = "1"
