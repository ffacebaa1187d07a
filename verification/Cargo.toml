[package]
name = "antithesis_browser"
version = "0.1.0"
edition = "2021"
publish = false

[dependencies]
anyhow = "*"
base64 = "*"
chromiumoxide = { version = "*", default-features = false, features = ["tokio-runtime"] }
clap = { version = "*", features = ["derive"] }
env_logger = "*"
futures = "*"
log = "*"
rand = "*"
serde = { version = "*", features = ["derive"] }
serde_json = "*"
tempfile = "*"
tokio = { version = "*", features = ["rt-multi-thread", "macros", "time", "sync"] }
url = "*"
