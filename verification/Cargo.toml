[package]
name = "atra"
version = "0.1.0"
edition = "2021"
publish = false

[dependencies]
anyhow = "1"
base64 = "0.22"
chrono = "0.4"
clap = { version = "4", features = ["derive"] }
futures-util = "0.3"
htmd = "*"
os_info = { version = "3", default-features = false }
rand = "0.9"
reqwest = { version = "0.12", default-features = false, features = ["json", "stream", "cookies"] }
rpassword = "7"
rustix = { version = "1", features = ["process"] }
serde = { version = "1", features = ["derive"] }
serde_json = "1"
sha2 = "0.10"
tiktoken-rs = "*"
tokio = { version = "1", features = ["full"] }
toml = "0.8"
tracing = "0.1"
tracing-subscriber = { version = "0.3", features = ["env-filter"] }
webbrowser = "1"
xdg = "3"
zstd = "0.13"

[dev-dependencies]
tempfile = "3"
