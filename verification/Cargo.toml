[package]
name = "iamtxt"
version = "0.1.0"
edition = "2021"
publish = false

[dependencies]
ahash = "0.8"
anyhow = "1"
clap = { version = "4", features = ["cargo"] }
log = "0.4"
platform-dirs = "0.3"
regex = "1"
reqwest = { version = "0.12", default-features = false, features = ["cookies", "rustls-tls"] }
serde = { version = "1", features = ["derive"] }
serde_json = "1"
simple_logger = "4"
time = { version = "0.3", features = ["parsing", "formatting", "local-offset", "macros"] }
tokio = { version = "1", features = ["macros", "rt-multi-thread"] }
toml = "0.8"
