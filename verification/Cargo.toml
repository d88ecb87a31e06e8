[package]
name = "tgjpg_rs"
version = "0.1.0"
edition = "2021"
publish = false

[dependencies]
regex = "=1.13.1"
url = "=2.5.8"
serde_json = "=1.0.154"
anyhow = "=1.0.104"
log = "=0.4.35"
pretty_env_logger = "=0.5.0"
tokio = { version = "=1.54.1", features = ["macros", "rt-multi-thread"] }
reqwest = { version = "=0.12.28", default-features = false, features = ["rustls-tls", "cookies"] }
teloxide = { version = "=0.13.0", default-features = false, features = ["rustls", "ctrlc_handler", "macros"] }
uuid = { version = "=1.29.0", features = ["v4"] }
takecell = "=0.1.1"
