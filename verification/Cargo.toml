[package]
name = "agwiki"
version = "0.1.0"
edition = "2021"
publish = false

[dependencies]
sha2 = "=0.10.9"
ulid = "=1.2.1"
time = { version = "=0.3.55", features = ["formatting"] }
pulldown-cmark = "=0.12.2"
anyhow = "=1.0.104"
serde = { version = "=1.0.229", features = ["derive"] }
serde_json = "=1.0.154"
serde_yaml = "=0.9.34"
toml = "=0.8.23"
axum = "=0.7.9"
tokio = { version = "=1.54.1", features = ["rt", "macros", "net", "signal"] }
tower = "=0.5.3"
mime_guess = "=2.0.5"
webbrowser = "=1.2.6"
aikit-sdk = "=0.2.1"
pathdiff = "0.2"

[dev-dependencies]
tempfile = "=3.27.0"
