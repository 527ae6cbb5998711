[package]
name = "midi_does"
version = "0.1.0"
edition = "2021"
publish = false

[dependencies]
serde = { version = "1", features = ["derive"] }
toml = "0.9"
dirs = "6"
thiserror = "2"
log = "0.4"
env_logger = "0.11"
midir = "0.11"
libc = "0.2"
iced = { version = "0.14", default-features = false, features = ["tiny-skia", "canvas", "tokio", "x11", "thread-pool", "crisp"] }
