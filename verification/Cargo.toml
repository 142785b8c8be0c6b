[package]
name = "tauri-plugin-vsk-journal"
version = "0.1.0"
edition = "2021"
publish = false

[dependencies]
serde = "1"
thiserror = "*"
tauri = { version = "2", default-features = false }
