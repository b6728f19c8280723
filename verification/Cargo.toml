[package]
name = "bark_core"
version = "0.1.0"
edition = "2021"
publish = false
rust-version = "1.95"

[dependencies]
regex = "=1.13.1"
rand = "=0.9.5"
ogg = "=0.9.2"
opus = "=0.3.1"
anyhow = "=1.0.104"
thiserror = "=2.0.21"
serde = { version = "=1.0.229", features = ["derive"] }
serde_json = "=1.0.154"
toml = "=0.8.23"
clap = { version = "=4.6.7", features = ["derive"] }
ureq = { version = "=3.5.1", features = ["multipart"] }
reqwest = { version = "=0.12.28", default-features = false, features = ["blocking", "multipart"] }
tokio = { version = "=1.54.1", features = ["rt-multi-thread"] }
rubato = "=0.16.2"
cpal = "=0.15.3"
fs2 = "=0.4.3"
libc = "=0.2.191"
signal-hook = "=0.3.18"
ctrlc = "=3.5.2"
jni = "=0.21.1"
windows-sys = { version = "=0.59.0", features = ["Win32_Foundation", "Win32_System_Threading", "Win32_UI_Input_KeyboardAndMouse"] }
