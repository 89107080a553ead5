[package]
name = "belt"
version = "0.1.0"
edition = "2021"
publish = false

[dependencies]
base64 = "0.22"
chrono = "0.4"
clap = { version = "4", features = ["derive"] }
csv = "1"
dirs = "6"
figment = { version = "0.10", features = ["toml", "env"] }
flate2 = "1"
glob = "0.3"
handlebars = "6"
indicatif = "0.17"
rand = "0.9"
regex = "1"
serde = { version = "1", features = ["derive"] }
serde_json = "1"
thiserror = "2"
tokio = { version = "1", features = ["full"] }
tracing = "0.1"
tracing-subscriber = "0.3"

[dev-dependencies]
tempfile = "3"
