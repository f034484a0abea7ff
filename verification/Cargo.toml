[package]
name = "codex2api_desktop"
version = "0.1.0"
edition = "2021"
publish = false

[dependencies]
serde = { version = "1", features = ["derive"] }
serde_json = "1"
tauri = { version = "2", default-features = false, features = ["tray-icon", "image-png"] }
windows-sys = { version = "0.59", features = ["Win32_System_Threading"] }
