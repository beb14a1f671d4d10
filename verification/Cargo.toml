[package]
name = "kantan_video_edit"
version = "0.1.0"
edition = "2021"
publish = false

[dependencies]
serde = { version = "1", features = ["derive"] }
serde_json = "1"
log = "0.4"
which = "6"
tauri = { version = "2", default-features = false }
