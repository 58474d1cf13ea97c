[package]
name = "hlusra"
version = "0.1.0"
edition = "2021"
publish = false

[dependencies]
uuid = { version = "=1.29.1", features = ["v4"] }
chrono = "=0.4.45"
dirs = "=5.0.1"
serde = { version = "=1.0.229", features = ["derive"] }
serde_json = "=1.0.154"
toml = "=0.8.23"
thiserror = "=1.0.69"
rusqlite = { version = "=0.32.1", features = ["bundled", "load_extension"] }
reqwest = { version = "=0.12.28", default-features = false, features = ["json", "blocking", "stream", "multipart", "rustls-tls"] }
tokio = { version = "=1.54.1", features = ["rt", "sync", "macros"] }
futures-util = "=0.3.34"
hound = "=3.5.1"
genpdf = "=0.2.0"
tracing = "=0.1.44"
tracing-subscriber = "=0.3.23"
gstreamer = "=0.23.7"
whisper-rs = "=0.13.2"
ffmpeg-next = "=7.1.0"
ashpd = { version = "0.9", default-features = false, features = ["tokio"] }
