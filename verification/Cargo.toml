[package]
name = "audiophile_player"
version = "0.1.0"
edition = "2021"
publish = false

[dependencies]
anyhow = "1"
coreaudio-rs = { version = "0.11", default-features = false, features = ["audio_unit", "core_audio"] }
coreaudio-sys = { version = "0.2", default-features = false, features = ["audio_unit", "core_audio"] }
crossbeam-channel = "0.5"
env_logger = { version = "0.11", default-features = false }
image = { version = "=0.25.10", default-features = false, features = ["jpeg", "png", "webp"] }
log = "0.4"
reqwest = { version = "0.12", default-features = false, features = ["blocking", "json", "rustls-tls"] }
rfd = { version = "0.14", default-features = false, features = ["xdg-portal", "tokio"] }
rtrb = "=0.3.6"
serde_json = "=1.0.154"
slint = { version = "=1.4.1", default-features = false, features = ["std", "compat-1-2"] }
symphonia = { version = "=0.5.5", features = ["all"] }
urlencoding = "=2.1.3"
walkdir = "2"
